//! The local store: the mirror of the remote mailbox that the interface
//! shows.
//!
//! It keeps three tables: the labels, the messages, and the links that say
//! under which labels a message stands. A label and a message are found by
//! their id; a link is a pair of a message id and a label id. Taking a message
//! out from under a label removes a link and leaves the message in place;
//! only deleting the message removes its row.

use vstd::prelude::*;
use crate::keyed::{as_map, distinct_keys, has_key, lemma_empty, lemma_entry, lemma_push,
    lemma_remove, lemma_update, position, Keyed};
use crate::models::{copy_text, Label, LabelView, Message, MessageView};
use crate::labels::{in_display_order, order_labels, titled, titled_all};
use crate::ranking::{is_ranking, lemma_ranked_is_ranking, newest_first, ranked};
use crate::texts::{lemma_push_to_set, lemma_remove_contains};

verus! {

/// A link between a message and a label under which it stands.
#[derive(Debug)]
pub struct Link {
    pub message_id: String,
    pub label_id: String,
}

impl View for Link {
    type V = (Seq<char>, Seq<char>);

    open spec fn view(&self) -> (Seq<char>, Seq<char>) {
        (self.message_id@, self.label_id@)
    }
}

impl DeepView for Link {
    type V = (Seq<char>, Seq<char>);

    open spec fn deep_view(&self) -> (Seq<char>, Seq<char>) {
        self@
    }
}

/// What storing `m` leaves in the message table: a new row as it is; under an
/// id that is already there only the snippet, the read flag and the two
/// bodies are taken over, and the rest of the row stays.
pub open spec fn merged(table: Map<Seq<char>, MessageView>, m: MessageView) -> MessageView {
    if table.contains_key(m.id) {
        MessageView {
            snippet: m.snippet,
            is_read: m.is_read,
            body_plain: m.body_plain,
            body_html: m.body_html,
            ..table[m.id]
        }
    } else {
        m
    }
}

/// The rows that belong to the thread `thread_id`.
pub open spec fn in_thread(thread_id: Seq<char>) -> spec_fn(MessageView) -> bool {
    |m: MessageView| m.thread_id == thread_id
}

/// The rows that `links` puts under the label `label_id`.
pub open spec fn under_label(links: Set<(Seq<char>, Seq<char>)>, label_id: Seq<char>) -> spec_fn(
    MessageView,
) -> bool {
    |m: MessageView| links.contains((m.id, label_id))
}

/// The id and the date of each of `rows`, in order.
pub open spec fn dated_ids(rows: Seq<MessageView>) -> Seq<(Seq<char>, i64)> {
    Seq::new(rows.len(), |k: int| (rows[k].id, rows[k].internal_date))
}

/// The smaller of a count and a length.
pub open spec fn at_most(limit: usize, len: nat) -> int {
    if limit <= len {
        limit as int
    } else {
        len as int
    }
}

/// The part of a list that a page shows: `limit` rows at most, from the row
/// at `offset` on.
pub open spec fn page_of<A>(rows: Seq<A>, limit: usize, offset: usize) -> Seq<A> {
    let start = at_most(offset, rows.len());
    let end = if limit <= rows.len() - start {
        start + limit
    } else {
        rows.len() as int
    };
    rows.subrange(start, end)
}

/// What a [`LocalStore`] holds, as mathematical values.
pub struct StoreView {
    /// The label table, by label id.
    pub labels: Map<Seq<char>, LabelView>,
    /// The message table, by message id.
    pub messages: Map<Seq<char>, MessageView>,
    /// The links, each a pair of a message id and a label id.
    pub links: Set<(Seq<char>, Seq<char>)>,
}

impl StoreView {
    /// Every row stands under its own id.
    pub open spec fn wf(self) -> bool {
        &&& forall|id: Seq<char>| #[trigger]
            self.labels.contains_key(id) ==> self.labels[id].id == id
        &&& forall|id: Seq<char>| #[trigger]
            self.messages.contains_key(id) ==> self.messages[id].id == id
    }

    /// The message `message_id` stands under the label `label_id`.
    pub open spec fn linked(self, message_id: Seq<char>, label_id: Seq<char>) -> bool {
        self.links.contains((message_id, label_id))
    }

    /// `rows` lists the labels of the store, each once and with its display
    /// name, in the order in which they are shown.
    pub open spec fn shows_labels(self, rows: Seq<LabelView>) -> bool {
        &&& in_display_order(rows)
        &&& distinct_keys(rows)
        &&& forall|k: int|
            0 <= k < rows.len() ==> self.labels.contains_key((#[trigger] rows[k]).id) && rows[k]
                == titled(self.labels[rows[k].id])
        &&& forall|id: Seq<char>| #[trigger] self.labels.contains_key(id) ==> has_key(rows, id)
    }

    /// The message `id` is in the store and stands under the label
    /// `label_id`.
    pub open spec fn holds_under(self, id: Seq<char>, label_id: Seq<char>) -> bool {
        self.messages.contains_key(id) && self.links.contains((id, label_id))
    }

    /// `rows` ranks the threads under the label `label_id`: for each thread
    /// that has a message under the label there is one row, the newest
    /// message of the thread under the label; the rows stand newest first.
    pub open spec fn ranks_threads(self, rows: Seq<MessageView>, label_id: Seq<char>) -> bool {
        &&& newest_first(rows)
        &&& forall|k: int|
            0 <= k < rows.len() ==> self.holds_under((#[trigger] rows[k]).id, label_id)
                && self.messages[rows[k].id] == rows[k]
        &&& forall|a: int, b: int|
            0 <= a < b < rows.len() ==> (#[trigger] rows[a]).thread_id != (
            #[trigger] rows[b]).thread_id
        &&& forall|k: int, id: Seq<char>|
            0 <= k < rows.len() && #[trigger] self.holds_under(id, label_id)
                && self.messages[id].thread_id == (#[trigger] rows[k]).thread_id
                ==> self.messages[id].internal_date <= rows[k].internal_date
        &&& forall|id: Seq<char>| #[trigger]
            self.holds_under(id, label_id) ==> has_thread(rows, self.messages[id].thread_id)
    }

    /// Some message of the thread `thread_id` stands under the label `SENT`:
    /// the user wrote in the thread.
    pub open spec fn thread_has_sent(self, thread_id: Seq<char>) -> bool {
        exists|id: Seq<char>| #[trigger]
            self.holds_under(id, "SENT"@) && self.messages[id].thread_id == thread_id
    }

    /// The store after `l` was stored.
    pub open spec fn with_label(self, l: LabelView) -> StoreView {
        StoreView { labels: self.labels.insert(l.id, l), ..self }
    }

    /// The store after each of `ls` was stored, in order.
    pub open spec fn with_labels(self, ls: Seq<LabelView>) -> StoreView
        decreases ls.len(),
    {
        if ls.len() == 0 {
            self
        } else {
            self.with_labels(ls.drop_last()).with_label(ls.last())
        }
    }

    /// The store after `m` was stored under the label `label_id`.
    pub open spec fn upserted(self, m: MessageView, label_id: Seq<char>) -> StoreView {
        StoreView {
            labels: self.labels,
            messages: self.messages.insert(m.id, merged(self.messages, m)),
            links: self.links.insert((m.id, label_id)),
        }
    }

    /// The store after each of `ms` was stored under the label `label_id`, in
    /// order.
    pub open spec fn upserted_all(self, ms: Seq<MessageView>, label_id: Seq<char>) -> StoreView
        decreases ms.len(),
    {
        if ms.len() == 0 {
            self
        } else {
            self.upserted_all(ms.drop_last(), label_id).upserted(ms.last(), label_id)
        }
    }

    /// The store without the message `id` and without its links.
    pub open spec fn deleted(self, id: Seq<char>) -> StoreView {
        StoreView {
            labels: self.labels,
            messages: self.messages.remove(id),
            links: self.links.filter(|p: (Seq<char>, Seq<char>)| p.0 != id),
        }
    }

    /// The store without each of the messages `ids` and without their links.
    pub open spec fn deleted_all(self, ids: Seq<Seq<char>>) -> StoreView
        decreases ids.len(),
    {
        if ids.len() == 0 {
            self
        } else {
            self.deleted_all(ids.drop_last()).deleted(ids.last())
        }
    }

    /// The store without the link between `message_id` and `label_id`.
    pub open spec fn unlinked(self, message_id: Seq<char>, label_id: Seq<char>) -> StoreView {
        StoreView { links: self.links.remove((message_id, label_id)), ..self }
    }

    /// The store without the links between each of `message_ids` and
    /// `label_id`.
    pub open spec fn unlinked_all(self, message_ids: Seq<Seq<char>>, label_id: Seq<char>) -> StoreView
        decreases message_ids.len(),
    {
        if message_ids.len() == 0 {
            self
        } else {
            self.unlinked_all(message_ids.drop_last(), label_id).unlinked(
                message_ids.last(),
                label_id,
            )
        }
    }

    /// The store with a link between `message_id` and `label_id`.
    pub open spec fn relinked(self, message_id: Seq<char>, label_id: Seq<char>) -> StoreView {
        StoreView { links: self.links.insert((message_id, label_id)), ..self }
    }

    /// The store with a link between each of `message_ids` and `label_id`.
    pub open spec fn relinked_all(self, message_ids: Seq<Seq<char>>, label_id: Seq<char>) -> StoreView
        decreases message_ids.len(),
    {
        if message_ids.len() == 0 {
            self
        } else {
            self.relinked_all(message_ids.drop_last(), label_id).relinked(
                message_ids.last(),
                label_id,
            )
        }
    }

    /// The store in which the message `id`, if it is there, carries the read
    /// flag `is_read`.
    pub open spec fn read_marked(self, id: Seq<char>, is_read: bool) -> StoreView {
        if self.messages.contains_key(id) {
            StoreView {
                messages: self.messages.insert(
                    id,
                    MessageView { is_read: is_read, ..self.messages[id] },
                ),
                ..self
            }
        } else {
            self
        }
    }
}

/// Some row of `rows` belongs to the thread `thread_id`.
pub open spec fn has_thread(rows: Seq<MessageView>, thread_id: Seq<char>) -> bool {
    exists|k: int| 0 <= k < rows.len() && (#[trigger] rows[k]).thread_id == thread_id
}

/// The row at `h` is the head of its thread among the rows that `linked`
/// selects: it is selected, no selected row of the thread is newer, and of
/// those that are as new it comes first.
pub open spec fn is_head(rows: Seq<MessageView>, linked: Seq<bool>, h: int) -> bool {
    &&& 0 <= h < rows.len()
    &&& linked[h]
    &&& forall|j: int|
        0 <= j < rows.len() && linked[j] && (#[trigger] rows[j]).thread_id == rows[h].thread_id
            ==> rows[j].internal_date < rows[h].internal_date || (rows[j].internal_date
            == rows[h].internal_date && j >= h)
}

/// Some row that `mask` selects belongs to the thread `thread_id`.
pub open spec fn thread_selected(rows: Seq<MessageView>, mask: Seq<bool>, thread_id: Seq<char>) -> bool {
    exists|h: int| 0 <= h < rows.len() && mask[h] && (#[trigger] rows[h]).thread_id == thread_id
}

/// The head of the thread of the row at `j`.
fn head_of(rows: &Vec<Message>, linked: &Vec<bool>, j: usize) -> (h: usize)
    requires
        linked.len() == rows.len(),
        j < rows.len(),
        linked[j as int],
    ensures
        is_head(rows.deep_view(), linked@, h as int),
        rows.deep_view()[h as int].thread_id == rows.deep_view()[j as int].thread_id,
{
    let ghost table = rows.deep_view();
    let mut best: usize = j;
    let mut found = false;
    let mut i: usize = 0;
    while i < rows.len()
        invariant
            i <= rows.len(),
            linked.len() == rows.len(),
            table == rows.deep_view(),
            best < rows.len(),
            j < rows.len(),
            linked[j as int],
            linked[best as int],
            table[best as int].thread_id == table[j as int].thread_id,
            found ==> best < i,
            !found ==> best == j,
            !found ==> forall|k: int|
                0 <= k < i ==> !(linked[k] && (#[trigger] table[k]).thread_id
                    == table[j as int].thread_id),
            found ==> forall|k: int|
                0 <= k < i && linked[k] && (#[trigger] table[k]).thread_id
                    == table[j as int].thread_id ==> table[k].internal_date
                    < table[best as int].internal_date || (table[k].internal_date
                    == table[best as int].internal_date && k >= best),
        decreases rows.len() - i,
    {
        if linked[i] && rows[i].thread_id == rows[j].thread_id {
            if !found || rows[i].internal_date > rows[best].internal_date {
                best = i;
                found = true;
            }
        }
        i += 1;
    }
    proof {
        if !found {
            assert(!(linked[j as int] && table[j as int].thread_id == table[j as int].thread_id));
        }
    }
    best
}

/// The ids of `rows`, in order.
pub open spec fn ids_of(rows: Seq<MessageView>) -> Seq<Seq<char>> {
    Seq::new(rows.len(), |k: int| rows[k].id)
}

/// What storing a list of messages under a label changes: the rows of the
/// messages listed, and their links to the label. Nothing else.
pub proof fn lemma_upserted_all(s: StoreView, ms: Seq<MessageView>, label_id: Seq<char>)
    ensures
        s.upserted_all(ms, label_id).labels == s.labels,
        forall|id: Seq<char>|
            !ids_of(ms).contains(id) ==> (#[trigger] s.upserted_all(
                ms,
                label_id,
            ).messages.contains_key(id) == s.messages.contains_key(id)),
        forall|id: Seq<char>|
            !ids_of(ms).contains(id) ==> #[trigger] s.upserted_all(ms, label_id).messages[id]
                == s.messages[id],
        forall|id: Seq<char>|
            ids_of(ms).contains(id) ==> #[trigger] s.upserted_all(
                ms,
                label_id,
            ).messages.contains_key(id),
        forall|p: (Seq<char>, Seq<char>)| #[trigger]
            s.upserted_all(ms, label_id).links.contains(p) <==> (s.links.contains(p) || (p.1
                == label_id && ids_of(ms).contains(p.0))),
        s.wf() ==> s.upserted_all(ms, label_id).wf(),
    decreases ms.len(),
{
    if ms.len() > 0 {
        let head = ms.drop_last();
        let m = ms.last();
        lemma_upserted_all(s, head, label_id);
        let mid = s.upserted_all(head, label_id);
        let after = s.upserted_all(ms, label_id);
        assert(after == mid.upserted(m, label_id));
        assert forall|id: Seq<char>| ids_of(ms).contains(id) <==> (ids_of(head).contains(id) || id
            == m.id) by {
            if ids_of(ms).contains(id) {
                let k = choose|k: int| 0 <= k < ms.len() && ids_of(ms)[k] == id;
                if k < head.len() {
                    assert(ids_of(head)[k] == id);
                }
            }
            if ids_of(head).contains(id) {
                let k = choose|k: int| 0 <= k < head.len() && ids_of(head)[k] == id;
                assert(ids_of(ms)[k] == id);
            }
            if id == m.id {
                assert(ids_of(ms)[ms.len() - 1] == id);
            }
        }
    }
}

/// What taking a list of messages out from under a label changes: their
/// links to that label. Nothing else.
pub proof fn lemma_unlinked_all(s: StoreView, ids: Seq<Seq<char>>, label_id: Seq<char>)
    ensures
        s.unlinked_all(ids, label_id).labels == s.labels,
        s.unlinked_all(ids, label_id).messages == s.messages,
        forall|p: (Seq<char>, Seq<char>)| #[trigger]
            s.unlinked_all(ids, label_id).links.contains(p) <==> (s.links.contains(p) && !(p.1
                == label_id && ids.contains(p.0))),
    decreases ids.len(),
{
    if ids.len() > 0 {
        let head = ids.drop_last();
        lemma_unlinked_all(s, head, label_id);
        assert forall|id: Seq<char>| ids.contains(id) <==> (head.contains(id) || id
            == ids.last()) by {
            if ids.contains(id) {
                let k = choose|k: int| 0 <= k < ids.len() && ids[k] == id;
                if k < head.len() {
                    assert(head[k] == id);
                }
            }
            if head.contains(id) {
                let k = choose|k: int| 0 <= k < head.len() && head[k] == id;
                assert(ids[k] == id);
            }
            if id == ids.last() {
                assert(ids[ids.len() - 1] == id);
            }
        }
    }
}

/// What putting a list of messages under a label changes: their links to
/// that label. Nothing else.
pub proof fn lemma_relinked_all(s: StoreView, ids: Seq<Seq<char>>, label_id: Seq<char>)
    ensures
        s.relinked_all(ids, label_id).labels == s.labels,
        s.relinked_all(ids, label_id).messages == s.messages,
        forall|p: (Seq<char>, Seq<char>)| #[trigger]
            s.relinked_all(ids, label_id).links.contains(p) <==> (s.links.contains(p) || (p.1
                == label_id && ids.contains(p.0))),
    decreases ids.len(),
{
    if ids.len() > 0 {
        let head = ids.drop_last();
        lemma_relinked_all(s, head, label_id);
        assert forall|id: Seq<char>| ids.contains(id) <==> (head.contains(id) || id
            == ids.last()) by {
            if ids.contains(id) {
                let k = choose|k: int| 0 <= k < ids.len() && ids[k] == id;
                if k < head.len() {
                    assert(head[k] == id);
                }
            }
            if head.contains(id) {
                let k = choose|k: int| 0 <= k < head.len() && head[k] == id;
                assert(ids[k] == id);
            }
            if id == ids.last() {
                assert(ids[ids.len() - 1] == id);
            }
        }
    }
}

/// What deleting a list of messages changes: their rows and all their
/// links. Nothing else.
pub proof fn lemma_deleted_all(s: StoreView, ids: Seq<Seq<char>>)
    ensures
        s.deleted_all(ids).labels == s.labels,
        forall|id: Seq<char>| #[trigger]
            s.deleted_all(ids).messages.contains_key(id) <==> (s.messages.contains_key(id)
                && !ids.contains(id)),
        forall|id: Seq<char>|
            !ids.contains(id) ==> #[trigger] s.deleted_all(ids).messages[id] == s.messages[id],
        forall|p: (Seq<char>, Seq<char>)| #[trigger]
            s.deleted_all(ids).links.contains(p) <==> (s.links.contains(p) && !ids.contains(p.0)),
        s.wf() ==> s.deleted_all(ids).wf(),
    decreases ids.len(),
{
    if ids.len() > 0 {
        let head = ids.drop_last();
        lemma_deleted_all(s, head);
        assert forall|id: Seq<char>| ids.contains(id) <==> (head.contains(id) || id
            == ids.last()) by {
            if ids.contains(id) {
                let k = choose|k: int| 0 <= k < ids.len() && ids[k] == id;
                if k < head.len() {
                    assert(head[k] == id);
                }
            }
            if head.contains(id) {
                let k = choose|k: int| 0 <= k < head.len() && head[k] == id;
                assert(ids[k] == id);
            }
            if id == ids.last() {
                assert(ids[ids.len() - 1] == id);
            }
        }
    }
}

/// The ids of `rows`, in order.
pub fn message_ids(rows: &Vec<Message>) -> (r: Vec<String>)
    ensures
        r.deep_view() == ids_of(rows.deep_view()),
{
    let mut out: Vec<String> = Vec::new();
    let mut i: usize = 0;
    while i < rows.len()
        invariant
            i <= rows.len(),
            out.len() == i,
            forall|k: int| 0 <= k < i ==> out[k]@ == rows[k].id@,
        decreases rows.len() - i,
    {
        out.push(rows[i].id.clone());
        i += 1;
    }
    assert(out.deep_view() =~= ids_of(rows.deep_view()));
    out
}

/// The place of the row of `id` in the message table, if it has one.
fn find_message(rows: &Vec<Message>, id: &String) -> (r: Option<usize>)
    ensures
        match r {
            Some(i) => i < rows.len() && rows[i as int].id@ == id@ && has_key(
                rows.deep_view(),
                id@,
            ),
            None => !has_key(rows.deep_view(), id@),
        },
{
    let mut i: usize = 0;
    while i < rows.len()
        invariant
            i <= rows.len(),
            forall|j: int| 0 <= j < i ==> rows[j].id@ != id@,
        decreases rows.len() - i,
    {
        if rows[i].id == *id {
            assert(rows.deep_view()[i as int].key() == id@);
            return Some(i);
        }
        i += 1;
    }
    assert forall|j: int| 0 <= j < rows.deep_view().len() implies (#[trigger] rows.deep_view()[j]).key()
        != id@ by {
        assert(rows[j].id@ != id@);
    }
    None
}

/// The place of the row of `id` in the label table, if it has one.
fn find_label(rows: &Vec<Label>, id: &String) -> (r: Option<usize>)
    ensures
        match r {
            Some(i) => i < rows.len() && rows[i as int].id@ == id@ && has_key(
                rows.deep_view(),
                id@,
            ),
            None => !has_key(rows.deep_view(), id@),
        },
{
    let mut i: usize = 0;
    while i < rows.len()
        invariant
            i <= rows.len(),
            forall|j: int| 0 <= j < i ==> rows[j].id@ != id@,
        decreases rows.len() - i,
    {
        if rows[i].id == *id {
            assert(rows.deep_view()[i as int].key() == id@);
            return Some(i);
        }
        i += 1;
    }
    assert forall|j: int| 0 <= j < rows.deep_view().len() implies (#[trigger] rows.deep_view()[j]).key()
        != id@ by {
        assert(rows[j].id@ != id@);
    }
    None
}

/// Stores one label: a new row, or the replacement of the row with its id.
fn upsert_label_row(rows: &mut Vec<Label>, label: &Label)
    requires
        distinct_keys(old(rows).deep_view()),
    ensures
        distinct_keys(final(rows).deep_view()),
        as_map(final(rows).deep_view()) == as_map(old(rows).deep_view()).insert(
            label@.id,
            label@,
        ),
{
    let ghost before = rows.deep_view();
    match find_label(rows, &label.id) {
        Some(i) => {
            rows[i] = label.duplicate();
            proof {
                assert(rows.deep_view() =~= before.update(i as int, label@));
                lemma_update(before, i as int, label@);
            }
        },
        None => {
            rows.push(label.duplicate());
            proof {
                assert(rows.deep_view() =~= before.push(label@));
                lemma_push(before, label@);
            }
        },
    }
}

/// Stores one message: a new row, or the update of the row with its id.
fn upsert_message_row(rows: &mut Vec<Message>, msg: &Message)
    requires
        distinct_keys(old(rows).deep_view()),
    ensures
        distinct_keys(final(rows).deep_view()),
        as_map(final(rows).deep_view()) == as_map(old(rows).deep_view()).insert(
            msg@.id,
            merged(as_map(old(rows).deep_view()), msg@),
        ),
{
    let ghost before = rows.deep_view();
    match find_message(rows, &msg.id) {
        Some(i) => {
            let row = Message {
                id: rows[i].id.clone(),
                thread_id: rows[i].thread_id.clone(),
                snippet: copy_text(&msg.snippet),
                from_address: copy_text(&rows[i].from_address),
                to_address: copy_text(&rows[i].to_address),
                subject: copy_text(&rows[i].subject),
                internal_date: rows[i].internal_date,
                body_plain: copy_text(&msg.body_plain),
                body_html: copy_text(&msg.body_html),
                is_read: msg.is_read,
            };
            proof {
                lemma_entry(before, i as int);
                assert(row@ == merged(as_map(before), msg@));
            }
            let ghost stored = row@;
            rows[i] = row;
            proof {
                assert(rows.deep_view() =~= before.update(i as int, stored));
                lemma_update(before, i as int, stored);
            }
        },
        None => {
            rows.push(msg.duplicate());
            proof {
                assert(rows.deep_view() =~= before.push(msg@));
                lemma_push(before, msg@);
            }
        },
    }
}

/// Whether the link between `message_id` and `label_id` is there.
fn has_link(links: &Vec<Link>, message_id: &String, label_id: &String) -> (r: bool)
    ensures
        r == links.deep_view().to_set().contains((message_id@, label_id@)),
{
    let mut i: usize = 0;
    while i < links.len()
        invariant
            i <= links.len(),
            forall|j: int| 0 <= j < i ==> links[j]@ != (message_id@, label_id@),
        decreases links.len() - i,
    {
        if links[i].message_id == *message_id && links[i].label_id == *label_id {
            assert(links.deep_view()[i as int] == (message_id@, label_id@));
            return true;
        }
        i += 1;
    }
    assert forall|j: int| 0 <= j < links.deep_view().len() implies links.deep_view()[j] != (
        message_id@,
        label_id@,
    ) by {
        assert(links[j]@ != (message_id@, label_id@));
    }
    false
}

/// Adds the link between `message_id` and `label_id`, unless it is there.
fn add_link(links: &mut Vec<Link>, message_id: &String, label_id: &String)
    ensures
        final(links).deep_view().to_set() == old(links).deep_view().to_set().insert(
            (message_id@, label_id@),
        ),
{
    let ghost before = links.deep_view();
    if !has_link(links, message_id, label_id) {
        links.push(Link { message_id: message_id.clone(), label_id: label_id.clone() });
        proof {
            assert(links.deep_view() =~= before.push((message_id@, label_id@)));
            lemma_push_to_set(before, (message_id@, label_id@));
        }
    } else {
        assert(before.to_set() =~= before.to_set().insert((message_id@, label_id@)));
    }
}

/// Removes the link between `message_id` and `label_id`, wherever it stands.
fn remove_link(links: &mut Vec<Link>, message_id: &String, label_id: &String)
    ensures
        final(links).deep_view().to_set() == old(links).deep_view().to_set().remove(
            (message_id@, label_id@),
        ),
{
    let ghost before = links.deep_view().to_set();
    let ghost gone = (message_id@, label_id@);
    let mut i: usize = 0;
    while i < links.len()
        invariant
            i <= links.len(),
            gone == (message_id@, label_id@),
            forall|j: int| 0 <= j < i ==> (#[trigger] links[j])@ != gone,
            forall|p: (Seq<char>, Seq<char>)| #[trigger]
                links.deep_view().contains(p) ==> before.contains(p),
            forall|p: (Seq<char>, Seq<char>)|
                before.contains(p) && p != gone ==> #[trigger] links.deep_view().contains(p),
        decreases links.len() - i,
    {
        if links[i].message_id == *message_id && links[i].label_id == *label_id {
            let ghost cur = links.deep_view();
            links.remove(i);
            proof {
                assert(links.deep_view() =~= cur.remove(i as int));
                lemma_remove_contains(cur, i as int);
            }
        } else {
            i += 1;
        }
    }
    proof {
        let after = links.deep_view();
        assert forall|p: (Seq<char>, Seq<char>)| after.contains(p) implies p != gone by {
            let k = choose|k: int| 0 <= k < after.len() && after[k] == p;
            assert(links[k]@ != gone);
        }
        assert(after.to_set() =~= before.remove(gone));
    }
}

/// Removes every link of the message `message_id`.
fn remove_links_of(links: &mut Vec<Link>, message_id: &String)
    ensures
        final(links).deep_view().to_set() == old(links).deep_view().to_set().filter(
            |p: (Seq<char>, Seq<char>)| p.0 != message_id@,
        ),
{
    let ghost before = links.deep_view().to_set();
    let mut i: usize = 0;
    while i < links.len()
        invariant
            i <= links.len(),
            forall|j: int| 0 <= j < i ==> (#[trigger] links[j])@.0 != message_id@,
            forall|p: (Seq<char>, Seq<char>)| #[trigger]
                links.deep_view().contains(p) ==> before.contains(p),
            forall|p: (Seq<char>, Seq<char>)|
                before.contains(p) && p.0 != message_id@ ==> #[trigger] links.deep_view().contains(
                    p,
                ),
        decreases links.len() - i,
    {
        if links[i].message_id == *message_id {
            let ghost cur = links.deep_view();
            links.remove(i);
            proof {
                assert(links.deep_view() =~= cur.remove(i as int));
                lemma_remove_contains(cur, i as int);
            }
        } else {
            i += 1;
        }
    }
    proof {
        let after = links.deep_view();
        assert forall|p: (Seq<char>, Seq<char>)| after.contains(p) implies p.0 != message_id@ by {
            let k = choose|k: int| 0 <= k < after.len() && after[k] == p;
            assert(links[k]@.0 != message_id@);
        }
        assert(after.to_set() =~= before.filter(|p: (Seq<char>, Seq<char>)| p.0 != message_id@));
    }
}

/// The local store.
#[derive(Debug)]
pub struct LocalStore {
    labels: Vec<Label>,
    messages: Vec<Message>,
    links: Vec<Link>,
}

impl View for LocalStore {
    type V = StoreView;

    closed spec fn view(&self) -> StoreView {
        StoreView {
            labels: as_map(self.labels.deep_view()),
            messages: as_map(self.messages.deep_view()),
            links: self.links.deep_view().to_set(),
        }
    }
}

/// The map that stands for a table without repeated ids holds every row under
/// its own id.
proof fn lemma_rows_under_own_id<E: Keyed>(rows: Seq<E>)
    requires
        distinct_keys(rows),
    ensures
        forall|id: Seq<char>| #[trigger]
            as_map(rows).contains_key(id) ==> as_map(rows)[id].key() == id,
{
    assert forall|id: Seq<char>| #[trigger] as_map(rows).contains_key(id) implies as_map(
        rows,
    )[id].key() == id by {
        let p = position(rows, id);
        lemma_entry(rows, p);
    }
}

impl LocalStore {
    #[verifier::type_invariant]
    spec fn well_formed(&self) -> bool {
        distinct_keys(self.labels.deep_view()) && distinct_keys(self.messages.deep_view())
    }

    proof fn lemma_view_wf(&self)
        requires
            self.well_formed(),
        ensures
            self@.wf(),
    {
        lemma_rows_under_own_id(self.labels.deep_view());
        lemma_rows_under_own_id(self.messages.deep_view());
    }

    /// An empty store.
    pub fn new() -> (r: LocalStore)
        ensures
            r@.labels == Map::<Seq<char>, LabelView>::empty(),
            r@.messages == Map::<Seq<char>, MessageView>::empty(),
            r@.links == Set::<(Seq<char>, Seq<char>)>::empty(),
            r@.wf(),
    {
        let r = LocalStore { labels: Vec::new(), messages: Vec::new(), links: Vec::new() };
        proof {
            lemma_empty::<LabelView>();
            lemma_empty::<MessageView>();
            assert(r.labels.deep_view() =~= Seq::<LabelView>::empty());
            assert(r.messages.deep_view() =~= Seq::<MessageView>::empty());
            assert(r@.links =~= Set::<(Seq<char>, Seq<char>)>::empty());
            r.lemma_view_wf();
        }
        r
    }

    /// Stores each of `labels`: a label with a new id gets a row, one with a
    /// known id replaces its row.
    pub fn upsert_labels(&mut self, labels: &Vec<Label>)
        ensures
            final(self)@ == old(self)@.with_labels(labels.deep_view()),
            final(self)@.wf(),
    {
        proof {
            use_type_invariant(&*self);
        }
        let ghost before = self@;
        let ghost ls = labels.deep_view();
        let mut rows: Vec<Label> = Vec::new();
        core::mem::swap(&mut rows, &mut self.labels);
        let mut i: usize = 0;
        while i < labels.len()
            invariant
                i <= labels.len(),
                ls == labels.deep_view(),
                distinct_keys(rows.deep_view()),
                as_map(rows.deep_view()) == before.with_labels(ls.take(i as int)).labels,
                before.with_labels(ls.take(i as int)).messages == before.messages,
                before.with_labels(ls.take(i as int)).links == before.links,
            decreases labels.len() - i,
        {
            upsert_label_row(&mut rows, &labels[i]);
            proof {
                assert(ls.take(i + 1).drop_last() =~= ls.take(i as int));
            }
            i += 1;
        }
        proof {
            assert(ls.take(i as int) =~= ls);
        }
        self.labels = rows;
        proof {
            self.lemma_view_wf();
        }
    }

    /// Stores each of `messages` and puts it under the label `label_id`. A
    /// message with a new id gets a row; of one with a known id only the
    /// snippet, the read flag and the bodies are taken over.
    pub fn upsert_messages(&mut self, messages: &Vec<Message>, label_id: &str)
        ensures
            final(self)@ == old(self)@.upserted_all(messages.deep_view(), label_id@),
            final(self)@.wf(),
    {
        proof {
            use_type_invariant(&*self);
        }
        let ghost before = self@;
        let ghost ms = messages.deep_view();
        let label = label_id.to_owned();
        let mut rows: Vec<Message> = Vec::new();
        core::mem::swap(&mut rows, &mut self.messages);
        let mut links: Vec<Link> = Vec::new();
        core::mem::swap(&mut links, &mut self.links);
        let mut i: usize = 0;
        while i < messages.len()
            invariant
                i <= messages.len(),
                ms == messages.deep_view(),
                label@ == label_id@,
                distinct_keys(rows.deep_view()),
                as_map(rows.deep_view()) == before.upserted_all(
                    ms.take(i as int),
                    label_id@,
                ).messages,
                links.deep_view().to_set() == before.upserted_all(
                    ms.take(i as int),
                    label_id@,
                ).links,
                before.upserted_all(ms.take(i as int), label_id@).labels == before.labels,
            decreases messages.len() - i,
        {
            upsert_message_row(&mut rows, &messages[i]);
            add_link(&mut links, &messages[i].id, &label);
            proof {
                assert(ms.take(i + 1).drop_last() =~= ms.take(i as int));
            }
            i += 1;
        }
        proof {
            assert(ms.take(i as int) =~= ms);
        }
        self.messages = rows;
        self.links = links;
        proof {
            self.lemma_view_wf();
        }
    }

    /// Sets the read flag of the message `id`, if the store has it.
    pub fn mark_message_as_read(&mut self, id: &str, is_read: bool)
        ensures
            final(self)@ == old(self)@.read_marked(id@, is_read),
            final(self)@.wf(),
    {
        proof {
            use_type_invariant(&*self);
        }
        let key = id.to_owned();
        let ghost before = self.messages.deep_view();
        let mut rows: Vec<Message> = Vec::new();
        core::mem::swap(&mut rows, &mut self.messages);
        match find_message(&rows, &key) {
            Some(i) => {
                let mut row = rows[i].duplicate();
                row.is_read = is_read;
                let ghost stored = row@;
                rows[i] = row;
                proof {
                    lemma_entry(before, i as int);
                    assert(rows.deep_view() =~= before.update(i as int, stored));
                    lemma_update(before, i as int, stored);
                }
            },
            None => {},
        }
        self.messages = rows;
        proof {
            self.lemma_view_wf();
        }
    }

    /// Whether the store has a message with the id `id`.
    pub fn message_exists(&self, id: &str) -> (r: bool)
        ensures
            r == self@.messages.contains_key(id@),
    {
        let key = id.to_owned();
        find_message(&self.messages, &key).is_some()
    }

    /// The date of the message `id`, if the store has it.
    pub fn get_message_date(&self, id: &str) -> (r: Option<i64>)
        ensures
            r == if self@.messages.contains_key(id@) {
                Some(self@.messages[id@].internal_date)
            } else {
                None
            },
    {
        proof {
            use_type_invariant(self);
        }
        let key = id.to_owned();
        match find_message(&self.messages, &key) {
            Some(i) => {
                proof {
                    lemma_entry(self.messages.deep_view(), i as int);
                }
                Some(self.messages[i].internal_date)
            },
            None => None,
        }
    }

    /// The messages of the thread `thread_id`, newest first.
    pub fn get_messages_by_thread(&self, thread_id: &str) -> (r: Vec<Message>)
        ensures
            is_ranking(r.deep_view(), self@.messages, in_thread(thread_id@)),
    {
        proof {
            use_type_invariant(self);
        }
        let thread = thread_id.to_owned();
        let mut mask: Vec<bool> = Vec::new();
        let mut i: usize = 0;
        while i < self.messages.len()
            invariant
                i <= self.messages.len(),
                mask.len() == i,
                thread@ == thread_id@,
                forall|j: int|
                    0 <= j < i ==> mask[j] == ((#[trigger] self.messages.deep_view()[j]).thread_id
                        == thread_id@),
            decreases self.messages.len() - i,
        {
            mask.push(self.messages[i].thread_id == thread);
            i += 1;
        }
        let out = ranked(&self.messages, &mask);
        proof {
            lemma_ranked_is_ranking(
                self.messages.deep_view(),
                mask@,
                out.deep_view(),
                in_thread(thread_id@),
            );
        }
        out
    }

    /// The id and the date of the messages under the label `label_id`,
    /// newest first, and no more than `limit` of them.
    pub fn get_messages_with_dates_by_label(&self, label_id: &str, limit: usize) -> (r: Vec<
        (String, i64),
    >)
        ensures
            exists|ranking: Seq<MessageView>| #[trigger]
                is_ranking(ranking, self@.messages, under_label(self@.links, label_id@))
                    && r.deep_view() == dated_ids(ranking.take(at_most(limit, ranking.len()))),
    {
        proof {
            use_type_invariant(self);
        }
        let label = label_id.to_owned();
        let mut mask: Vec<bool> = Vec::new();
        let mut i: usize = 0;
        while i < self.messages.len()
            invariant
                i <= self.messages.len(),
                mask.len() == i,
                label@ == label_id@,
                forall|j: int|
                    0 <= j < i ==> mask[j] == self@.links.contains(
                        ((#[trigger] self.messages.deep_view()[j]).id, label_id@),
                    ),
            decreases self.messages.len() - i,
        {
            mask.push(has_link(&self.links, &self.messages[i].id, &label));
            i += 1;
        }
        let all = ranked(&self.messages, &mask);
        proof {
            lemma_ranked_is_ranking(
                self.messages.deep_view(),
                mask@,
                all.deep_view(),
                under_label(self@.links, label_id@),
            );
        }
        let ghost ranking = all.deep_view();
        let mut out: Vec<(String, i64)> = Vec::new();
        let mut k: usize = 0;
        while k < all.len() && k < limit
            invariant
                k <= all.len(),
                k <= limit,
                ranking == all.deep_view(),
                is_ranking(ranking, self@.messages, under_label(self@.links, label_id@)),
                out.len() == k,
                forall|j: int|
                    0 <= j < k ==> (#[trigger] out[j]).0@ == ranking[j].id && out[j].1
                        == ranking[j].internal_date,
            decreases all.len() - k,
        {
            out.push((all[k].id.clone(), all[k].internal_date));
            k += 1;
        }
        proof {
            let page = ranking.take(at_most(limit, ranking.len()));
            assert(k == at_most(limit, ranking.len()));
            assert forall|j: int| 0 <= j < k implies out.deep_view()[j] == dated_ids(page)[j] by {
                assert(out.deep_view()[j] == (out[j].0@, out[j].1));
            }
            assert(out.deep_view() =~= dated_ids(page));
        }
        out
    }

    /// The labels in the order in which they are shown, each with its
    /// display name.
    pub fn get_labels(&self) -> (r: Vec<Label>)
        ensures
            self@.shows_labels(r.deep_view()),
    {
        proof {
            use_type_invariant(self);
        }
        let out = order_labels(&self.labels);
        proof {
            let rows = self.labels.deep_view();
            let shown = out.deep_view();
            assert forall|k: int| 0 <= k < shown.len() implies self@.labels.contains_key(
                (#[trigger] shown[k]).id,
            ) && shown[k] == titled(self@.labels[shown[k].id]) by {
                let j = choose|j: int| 0 <= j < rows.len() && titled(#[trigger] rows[j]) == shown[k];
                lemma_entry(rows, j);
            }
            assert forall|id: Seq<char>| #[trigger] self@.labels.contains_key(id) implies has_key(
                shown,
                id,
            ) by {
                let p = position(rows, id);
                lemma_entry(rows, p);
                let x = titled(rows[p]);
                assert(titled_all(rows)[p] == x);
                assert(titled_all(rows).contains(x));
                vstd::seq_lib::to_multiset_contains(titled_all(rows), x);
                vstd::seq_lib::to_multiset_contains(shown, x);
                let k = choose|k: int| 0 <= k < shown.len() && shown[k] == x;
                assert(shown[k].key() == id);
            }
        }
        out
    }

    /// The threads under the label `label_id`, each by its newest message
    /// under the label, newest first: `limit` of them at most, from the
    /// thread at `offset` on.
    pub fn get_messages_by_label(&self, label_id: &str, limit: usize, offset: usize) -> (r: Vec<
        Message,
    >)
        ensures
            exists|ranking: Seq<MessageView>| #[trigger]
                self@.ranks_threads(ranking, label_id@) && r.deep_view() == page_of(
                    ranking,
                    limit,
                    offset,
                ),
    {
        proof {
            use_type_invariant(self);
        }
        let ghost table = self.messages.deep_view();
        let label = label_id.to_owned();
        let mut linked: Vec<bool> = Vec::new();
        let mut mask: Vec<bool> = Vec::new();
        let mut i: usize = 0;
        while i < self.messages.len()
            invariant
                i <= self.messages.len(),
                linked.len() == i,
                mask.len() == i,
                label@ == label_id@,
                table == self.messages.deep_view(),
                forall|j: int| 0 <= j < i ==> !mask[j],
                forall|j: int|
                    0 <= j < i ==> linked[j] == self@.links.contains(
                        ((#[trigger] table[j]).id, label_id@),
                    ),
            decreases self.messages.len() - i,
        {
            linked.push(has_link(&self.links, &self.messages[i].id, &label));
            mask.push(false);
            i += 1;
        }
        let mut j: usize = 0;
        while j < self.messages.len()
            invariant
                j <= self.messages.len(),
                linked.len() == self.messages.len(),
                mask.len() == self.messages.len(),
                table == self.messages.deep_view(),
                forall|h: int| 0 <= h < mask.len() && mask[h] ==> is_head(table, linked@, h),
                forall|k: int|
                    0 <= k < j && linked[k] ==> thread_selected(
                        table,
                        mask@,
                        (#[trigger] table[k]).thread_id,
                    ),
            decreases self.messages.len() - j,
        {
            if linked[j] {
                let h = head_of(&self.messages, &linked, j);
                let ghost before = mask@;
                mask[h] = true;
                proof {
                    assert forall|k: int| 0 <= k < j + 1 && linked[k] implies thread_selected(
                        table,
                        mask@,
                        (#[trigger] table[k]).thread_id,
                    ) by {
                        if k < j {
                            let w = choose|w: int|
                                0 <= w < table.len() && before[w] && (#[trigger] table[w]).thread_id
                                    == table[k].thread_id;
                            assert(mask[w] && table[w].thread_id == table[k].thread_id);
                        } else {
                            assert(mask[h as int] && table[h as int].thread_id
                                == table[k].thread_id);
                        }
                    }
                }
            }
            j += 1;
        }
        let all = ranked(&self.messages, &mask);
        let ghost ranking = all.deep_view();
        proof {
            let store = self@;
            assert forall|k: int| 0 <= k < ranking.len() implies store.holds_under(
                (#[trigger] ranking[k]).id,
                label_id@,
            ) && store.messages[ranking[k].id] == ranking[k] by {
                let w = choose|w: int| 0 <= w < table.len() && mask[w] && #[trigger] table[w] == ranking[k];
                lemma_entry(table, w);
                assert(is_head(table, linked@, w));
            }
            assert forall|a: int, b: int| 0 <= a < b < ranking.len() implies (
            #[trigger] ranking[a]).thread_id != (#[trigger] ranking[b]).thread_id by {
                let wa = choose|w: int| 0 <= w < table.len() && mask[w] && #[trigger] table[w] == ranking[a];
                let wb = choose|w: int| 0 <= w < table.len() && mask[w] && #[trigger] table[w] == ranking[b];
                assert(ranking[a].key() != ranking[b].key());
                assert(wa != wb);
                assert(is_head(table, linked@, wa));
                assert(is_head(table, linked@, wb));
                if table[wa].thread_id == table[wb].thread_id {
                    assert(table[wb].internal_date < table[wa].internal_date || (
                    table[wb].internal_date == table[wa].internal_date && wb >= wa));
                    assert(table[wa].internal_date < table[wb].internal_date || (
                    table[wa].internal_date == table[wb].internal_date && wa >= wb));
                }
            }
            assert forall|k: int, id: Seq<char>|
                0 <= k < ranking.len() && #[trigger] store.holds_under(id, label_id@)
                    && store.messages[id].thread_id == (
                #[trigger] ranking[k]).thread_id implies store.messages[id].internal_date
                <= ranking[k].internal_date by {
                let w = choose|w: int| 0 <= w < table.len() && mask[w] && #[trigger] table[w] == ranking[k];
                assert(is_head(table, linked@, w));
                let p = position(table, id);
                lemma_entry(table, p);
                assert(linked[p]);
                assert(table[p].thread_id == table[w].thread_id);
            }
            assert forall|id: Seq<char>| #[trigger] store.holds_under(id, label_id@) implies has_thread(
                ranking,
                store.messages[id].thread_id,
            ) by {
                let p = position(table, id);
                lemma_entry(table, p);
                assert(linked[p]);
                assert(thread_selected(table, mask@, table[p].thread_id));
                let w = choose|w: int|
                    0 <= w < table.len() && mask[w] && (#[trigger] table[w]).thread_id
                        == table[p].thread_id;
                assert(has_key(ranking, table[w].id));
                let k = choose|k: int| 0 <= k < ranking.len() && (#[trigger] ranking[k]).key() == table[w].id;
                let w2 = choose|w2: int|
                    0 <= w2 < table.len() && mask[w2] && #[trigger] table[w2] == ranking[k];
                if w2 != w {
                    if w2 < w {
                        assert(table[w2].key() != table[w].key());
                    } else {
                        assert(table[w].key() != table[w2].key());
                    }
                }
                assert(ranking[k].thread_id == table[p].thread_id);
            }
            assert(store.ranks_threads(ranking, label_id@));
        }
        let start = if offset <= all.len() {
            offset
        } else {
            all.len()
        };
        let end = if limit <= all.len() - start {
            start + limit
        } else {
            all.len()
        };
        let mut out: Vec<Message> = Vec::new();
        let mut k: usize = start;
        while k < end
            invariant
                start <= k <= end,
                end <= all.len(),
                ranking == all.deep_view(),
                out.len() == k - start,
                forall|m: int| 0 <= m < out.len() ==> (#[trigger] out[m])@ == ranking[start + m],
            decreases end - k,
        {
            out.push(all[k].duplicate());
            k += 1;
        }
        proof {
            assert(out.deep_view() =~= page_of(ranking, limit, offset));
        }
        out
    }

    /// Whether the user wrote in the thread `thread_id`: whether one of its
    /// messages stands under the label `SENT`.
    pub fn thread_contains_sent(&self, thread_id: &str) -> (r: bool)
        ensures
            r == self@.thread_has_sent(thread_id@),
    {
        proof {
            use_type_invariant(self);
        }
        let ghost table = self.messages.deep_view();
        let thread = thread_id.to_owned();
        let sent = "SENT".to_owned();
        let mut i: usize = 0;
        while i < self.messages.len()
            invariant
                i <= self.messages.len(),
                table == self.messages.deep_view(),
                distinct_keys(table),
                thread@ == thread_id@,
                sent@ == "SENT"@,
                forall|j: int|
                    0 <= j < i ==> !((#[trigger] table[j]).thread_id == thread_id@
                        && self@.links.contains((table[j].id, "SENT"@))),
            decreases self.messages.len() - i,
        {
            if self.messages[i].thread_id == thread && has_link(
                &self.links,
                &self.messages[i].id,
                &sent,
            ) {
                proof {
                    lemma_entry(table, i as int);
                    assert(self@.holds_under(table[i as int].id, "SENT"@));
                }
                return true;
            }
            i += 1;
        }
        proof {
            assert forall|id: Seq<char>| #[trigger]
                self@.holds_under(id, "SENT"@) implies self@.messages[id].thread_id
                != thread_id@ by {
                let p = position(table, id);
                lemma_entry(table, p);
            }
        }
        false
    }

    /// Whether the message `message_id` stands under the label `label_id`.
    pub fn is_linked(&self, message_id: &str, label_id: &str) -> (r: bool)
        ensures
            r == self@.linked(message_id@, label_id@),
    {
        let m = message_id.to_owned();
        let l = label_id.to_owned();
        has_link(&self.links, &m, &l)
    }

    /// Removes the message `id` and all its links.
    pub fn delete_message(&mut self, id: &str)
        ensures
            final(self)@ == old(self)@.deleted(id@),
            final(self)@.wf(),
    {
        proof {
            use_type_invariant(&*self);
        }
        let key = id.to_owned();
        let ghost before = self.messages.deep_view();
        let mut links: Vec<Link> = Vec::new();
        core::mem::swap(&mut links, &mut self.links);
        remove_links_of(&mut links, &key);
        self.links = links;
        let mut rows: Vec<Message> = Vec::new();
        core::mem::swap(&mut rows, &mut self.messages);
        match find_message(&rows, &key) {
            Some(i) => {
                rows.remove(i);
                proof {
                    assert(rows.deep_view() =~= before.remove(i as int));
                    lemma_remove(before, i as int);
                }
            },
            None => {
                assert(as_map(before) =~= as_map(before).remove(id@));
            },
        }
        self.messages = rows;
        proof {
            self.lemma_view_wf();
        }
    }

    /// Takes the message `message_id` out from under the label `label_id`.
    /// The message itself stays.
    pub fn remove_label_from_message(&mut self, message_id: &str, label_id: &str)
        ensures
            final(self)@ == old(self)@.unlinked(message_id@, label_id@),
            final(self)@.wf(),
    {
        proof {
            use_type_invariant(&*self);
        }
        let m = message_id.to_owned();
        let l = label_id.to_owned();
        let mut links: Vec<Link> = Vec::new();
        core::mem::swap(&mut links, &mut self.links);
        remove_link(&mut links, &m, &l);
        self.links = links;
        proof {
            self.lemma_view_wf();
        }
    }

    /// Takes each of the messages `message_ids` out from under the label
    /// `label_id`.
    pub fn remove_label_from_messages(&mut self, message_ids: &Vec<String>, label_id: &str)
        ensures
            final(self)@ == old(self)@.unlinked_all(message_ids.deep_view(), label_id@),
            final(self)@.wf(),
    {
        proof {
            use_type_invariant(&*self);
            self.lemma_view_wf();
        }
        let ghost before = self@;
        let ghost ids = message_ids.deep_view();
        let mut i: usize = 0;
        while i < message_ids.len()
            invariant
                i <= message_ids.len(),
                ids == message_ids.deep_view(),
                self@ == before.unlinked_all(ids.take(i as int), label_id@),
                self@.wf(),
            decreases message_ids.len() - i,
        {
            self.remove_label_from_message(message_ids[i].as_str(), label_id);
            proof {
                assert(ids.take(i + 1).drop_last() =~= ids.take(i as int));
            }
            i += 1;
        }
        proof {
            assert(ids.take(i as int) =~= ids);
        }
    }

    /// Puts each of the messages `message_ids` under the label `label_id`.
    pub fn add_label_to_messages(&mut self, message_ids: &Vec<String>, label_id: &str)
        ensures
            final(self)@ == old(self)@.relinked_all(message_ids.deep_view(), label_id@),
            final(self)@.wf(),
    {
        proof {
            use_type_invariant(&*self);
            self.lemma_view_wf();
        }
        let ghost before = self@;
        let ghost ids = message_ids.deep_view();
        let mut i: usize = 0;
        while i < message_ids.len()
            invariant
                i <= message_ids.len(),
                ids == message_ids.deep_view(),
                self@ == before.relinked_all(ids.take(i as int), label_id@),
                self@.wf(),
            decreases message_ids.len() - i,
        {
            self.add_label_to_message(message_ids[i].as_str(), label_id);
            proof {
                assert(ids.take(i + 1).drop_last() =~= ids.take(i as int));
            }
            i += 1;
        }
        proof {
            assert(ids.take(i as int) =~= ids);
        }
    }

    /// Removes each of the messages `ids` and all their links.
    pub fn delete_messages(&mut self, ids: &Vec<String>)
        ensures
            final(self)@ == old(self)@.deleted_all(ids.deep_view()),
            final(self)@.wf(),
    {
        proof {
            use_type_invariant(&*self);
            self.lemma_view_wf();
        }
        let ghost before = self@;
        let ghost gone = ids.deep_view();
        let mut i: usize = 0;
        while i < ids.len()
            invariant
                i <= ids.len(),
                gone == ids.deep_view(),
                self@ == before.deleted_all(gone.take(i as int)),
                self@.wf(),
            decreases ids.len() - i,
        {
            self.delete_message(ids[i].as_str());
            proof {
                assert(gone.take(i + 1).drop_last() =~= gone.take(i as int));
            }
            i += 1;
        }
        proof {
            assert(gone.take(i as int) =~= gone);
        }
    }

    /// Puts the message `message_id` under the label `label_id`.
    pub fn add_label_to_message(&mut self, message_id: &str, label_id: &str)
        ensures
            final(self)@ == old(self)@.relinked(message_id@, label_id@),
            final(self)@.wf(),
    {
        proof {
            use_type_invariant(&*self);
        }
        let m = message_id.to_owned();
        let l = label_id.to_owned();
        let mut links: Vec<Link> = Vec::new();
        core::mem::swap(&mut links, &mut self.links);
        add_link(&mut links, &m, &l);
        self.links = links;
        proof {
            self.lemma_view_wf();
        }
    }
}

impl Default for LocalStore {
    fn default() -> (r: LocalStore)
        ensures
            r@.labels == Map::<Seq<char>, LabelView>::empty(),
            r@.messages == Map::<Seq<char>, MessageView>::empty(),
            r@.links == Set::<(Seq<char>, Seq<char>)>::empty(),
    {
        LocalStore::new()
    }
}

} // verus!

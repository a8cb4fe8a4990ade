//! What holds of the engine as a whole: how deleting, archiving, undoing and
//! the background synchronisation act together on the store.
//!
//! The laws speak of the store through its view and of the operations
//! through the spec functions that their contracts use, so each of them holds
//! of every run of the executable functions.

use vstd::prelude::*;
use crate::keyed::distinct_keys;
use crate::ranking::is_ranking;
use crate::models::MessageView;
use crate::mutation::{linked_under, rolled_back, undone};
use crate::reconcile::{lemma_guarded_message_untouched, sync_effect, PageEntryView};
use crate::store::{ids_of, lemma_deleted_all, lemma_relinked_all, lemma_unlinked_all,
    lemma_upserted_all, StoreView};
use crate::sync::{guarded_at, marked, unmarked, GRACE_PERIOD_MILLIS};
use crate::undo::ActionView;

verus! {

/// `rows` were read from the store `s`: no id occurs twice among them, and
/// each is the row that the store has under its id.
pub open spec fn captured_from(rows: Seq<MessageView>, s: StoreView) -> bool {
    &&& distinct_keys(rows)
    &&& forall|k: int|
        0 <= k < rows.len() ==> s.messages.contains_key((#[trigger] rows[k]).id)
            && s.messages[rows[k].id] == rows[k]
}

/// The messages that a deletion or an archiving captures, a ranking of the
/// rows of a thread, were read from the store.
pub proof fn lemma_ranking_is_captured(
    rows: Seq<MessageView>,
    s: StoreView,
    wanted: spec_fn(MessageView) -> bool,
)
    requires
        is_ranking(rows, s.messages, wanted),
    ensures
        captured_from(rows, s),
{
}

/// An id is among the ids of `rows` exactly if a row carries it.
pub proof fn lemma_ids_of(rows: Seq<MessageView>, id: Seq<char>)
    ensures
        ids_of(rows).contains(id) <==> exists|k: int|
            0 <= k < rows.len() && (#[trigger] rows[k]).id == id,
{
    if ids_of(rows).contains(id) {
        let k = choose|k: int| 0 <= k < ids_of(rows).len() && ids_of(rows)[k] == id;
        assert(rows[k].id == id);
    }
    if exists|k: int| 0 <= k < rows.len() && (#[trigger] rows[k]).id == id {
        let k = choose|k: int| 0 <= k < rows.len() && (#[trigger] rows[k]).id == id;
        assert(ids_of(rows)[k] == id);
    }
}

/// Storing messages whose ids the store does not have, no id twice, puts
/// each of them into the store as it is.
pub proof fn lemma_store_absent(s: StoreView, ms: Seq<MessageView>, label_id: Seq<char>)
    requires
        distinct_keys(ms),
        forall|k: int| 0 <= k < ms.len() ==> !s.messages.contains_key((#[trigger] ms[k]).id),
    ensures
        forall|k: int|
            0 <= k < ms.len() ==> s.upserted_all(ms, label_id).messages.contains_key(
                (#[trigger] ms[k]).id,
            ) && s.upserted_all(ms, label_id).messages[ms[k].id] == ms[k],
    decreases ms.len(),
{
    if ms.len() > 0 {
        let head = ms.drop_last();
        let m = ms.last();
        assert forall|a: int, b: int| 0 <= a < b < head.len() implies (#[trigger] head[a]).id != (
        #[trigger] head[b]).id by {
            assert(ms[a].id != ms[b].id);
        }
        assert forall|k: int| 0 <= k < head.len() implies !s.messages.contains_key(
            (#[trigger] head[k]).id,
        ) by {
            assert(head[k] == ms[k]);
        }
        lemma_store_absent(s, head, label_id);
        lemma_upserted_all(s, head, label_id);
        let mid = s.upserted_all(head, label_id);
        assert(!ids_of(head).contains(m.id)) by {
            lemma_ids_of(head, m.id);
            if ids_of(head).contains(m.id) {
                let k = choose|k: int| 0 <= k < head.len() && (#[trigger] head[k]).id == m.id;
                assert(ms[k].id != ms[ms.len() - 1].id);
            }
        }
        assert(!mid.messages.contains_key(m.id));
        assert forall|k: int| 0 <= k < ms.len() implies s.upserted_all(
            ms,
            label_id,
        ).messages.contains_key((#[trigger] ms[k]).id) && s.upserted_all(
            ms,
            label_id,
        ).messages[ms[k].id] == ms[k] by {
            if k < head.len() {
                assert(head[k] == ms[k]);
                assert(ms[k].id != ms[ms.len() - 1].id);
            }
        }
    }
}

/// Storing messages that the store has already, each exactly as the store
/// has it, leaves the message table as it is.
pub proof fn lemma_store_same(s: StoreView, ms: Seq<MessageView>, label_id: Seq<char>)
    requires
        forall|k: int|
            0 <= k < ms.len() ==> s.messages.contains_key((#[trigger] ms[k]).id)
                && s.messages[ms[k].id] == ms[k],
    ensures
        s.upserted_all(ms, label_id).messages == s.messages,
    decreases ms.len(),
{
    if ms.len() > 0 {
        let head = ms.drop_last();
        let m = ms.last();
        assert forall|k: int| 0 <= k < head.len() implies s.messages.contains_key(
            (#[trigger] head[k]).id,
        ) && s.messages[head[k].id] == head[k] by {
            assert(head[k] == ms[k]);
        }
        lemma_store_same(s, head, label_id);
        let mid = s.upserted_all(head, label_id);
        assert(ms[ms.len() - 1] == m);
        assert(mid.messages[m.id] == m);
        assert(s.upserted_all(ms, label_id).messages =~= s.messages);
    }
}

/// Storing messages never changes the date of a message that the store has
/// already, nor its thread, its sender, its recipient or its subject.
pub proof fn lemma_store_keeps_date(
    s: StoreView,
    ms: Seq<MessageView>,
    label_id: Seq<char>,
    id: Seq<char>,
)
    requires
        s.messages.contains_key(id),
    ensures
        ({
            let after = s.upserted_all(ms, label_id);
            &&& after.messages.contains_key(id)
            &&& after.messages[id].internal_date == s.messages[id].internal_date
            &&& after.messages[id].thread_id == s.messages[id].thread_id
            &&& after.messages[id].from_address == s.messages[id].from_address
            &&& after.messages[id].to_address == s.messages[id].to_address
            &&& after.messages[id].subject == s.messages[id].subject
        }),
    decreases ms.len(),
{
    if ms.len() > 0 {
        lemma_store_keeps_date(s, ms.drop_last(), label_id, id);
    }
}

/// Undoing a deletion restores exactly the messages that were captured when
/// the thread was deleted, each as it was, under the label that was shown,
/// provided that none of them has come back into the store in between. The
/// rows of other messages stay as they are.
pub proof fn lemma_undo_delete_restores(
    before: StoreView,
    captured: Seq<MessageView>,
    label_id: Seq<char>,
    index: usize,
    interim: StoreView,
)
    requires
        captured_from(captured, before),
        forall|k: int|
            0 <= k < captured.len() ==> !interim.messages.contains_key((#[trigger] captured[k]).id),
    ensures
        ({
            let after = undone(
                interim,
                ActionView::Delete { messages: captured, label_id, original_index: index },
            );
            &&& forall|k: int|
                0 <= k < captured.len() ==> after.messages.contains_key((#[trigger] captured[k]).id)
                    && after.messages[captured[k].id] == before.messages[captured[k].id]
                    && after.linked(captured[k].id, label_id)
            &&& forall|id: Seq<char>|
                !ids_of(captured).contains(id) ==> (#[trigger] after.messages.contains_key(id)
                    == interim.messages.contains_key(id))
            &&& forall|id: Seq<char>|
                !ids_of(captured).contains(id) ==> #[trigger] after.messages[id]
                    == interim.messages[id]
        }),
{
    let after = interim.upserted_all(captured, label_id);
    lemma_store_absent(interim, captured, label_id);
    lemma_upserted_all(interim, captured, label_id);
    assert forall|k: int| 0 <= k < captured.len() implies after.linked(
        (#[trigger] captured[k]).id,
        label_id,
    ) by {
        assert(ids_of(captured)[k] == captured[k].id);
    }
}

/// A thread is deleted, the background synchronisation merges a page while
/// the guard still shields the thread, and the deletion is undone: the
/// messages of the thread are in the store again exactly as they were, under
/// the label that was shown, whatever the synchronisation was told.
pub proof fn lemma_delete_sync_undo(
    before: StoreView,
    captured: Seq<MessageView>,
    label_id: Seq<char>,
    index: usize,
    guard: Map<Seq<char>, u64>,
    deleted_at: u64,
    synced_at: u64,
    synced_label: Seq<char>,
    page: Seq<PageEntryView>,
    truncated: bool,
    fetched: Seq<MessageView>,
    local: Seq<(Seq<char>, i64)>,
)
    requires
        captured_from(captured, before),
        synced_at - deleted_at < GRACE_PERIOD_MILLIS,
    ensures
        ({
            let ids = ids_of(captured);
            let interim = sync_effect(
                before.deleted_all(ids),
                marked(guard, ids, deleted_at),
                synced_at,
                synced_label,
                page,
                truncated,
                fetched,
                local,
            );
            let after = undone(
                interim,
                ActionView::Delete { messages: captured, label_id, original_index: index },
            );
            forall|k: int|
                0 <= k < captured.len() ==> after.messages.contains_key((#[trigger] captured[k]).id)
                    && after.messages[captured[k].id] == before.messages[captured[k].id]
                    && after.linked(captured[k].id, label_id)
        }),
{
    let ids = ids_of(captured);
    let deleted = before.deleted_all(ids);
    let shield = marked(guard, ids, deleted_at);
    let interim = sync_effect(
        deleted,
        shield,
        synced_at,
        synced_label,
        page,
        truncated,
        fetched,
        local,
    );
    lemma_deleted_all(before, ids);
    assert forall|k: int| 0 <= k < captured.len() implies !interim.messages.contains_key(
        (#[trigger] captured[k]).id,
    ) by {
        let id = captured[k].id;
        assert(ids[k] == id);
        assert(guarded_at(shield, id, synced_at));
        lemma_guarded_message_untouched(
            deleted,
            shield,
            synced_at,
            synced_label,
            page,
            truncated,
            fetched,
            local,
            id,
        );
    }
    lemma_undo_delete_restores(before, captured, label_id, index, interim);
}

/// What one merging of a page was told: the guard and the moment, the label,
/// the page, the fetched messages and the store's own list.
pub struct SyncStep {
    pub guard: Map<Seq<char>, u64>,
    pub now: u64,
    pub label_id: Seq<char>,
    pub page: Seq<PageEntryView>,
    pub truncated: bool,
    pub fetched: Seq<MessageView>,
    pub local: Seq<(Seq<char>, i64)>,
}

/// The store after the pages of `steps` were merged into it, one after the
/// other.
pub open spec fn after_steps(s: StoreView, steps: Seq<SyncStep>) -> StoreView
    decreases steps.len(),
{
    if steps.len() == 0 {
        s
    } else {
        let step = steps.last();
        sync_effect(
            after_steps(s, steps.drop_last()),
            step.guard,
            step.now,
            step.label_id,
            step.page,
            step.truncated,
            step.fetched,
            step.local,
        )
    }
}

/// A message that the guard shields at each of the mergings is, after all
/// of them, in the store exactly if it was before, with the same row.
pub proof fn lemma_guarded_through_steps(s: StoreView, steps: Seq<SyncStep>, id: Seq<char>)
    requires
        forall|i: int|
            0 <= i < steps.len() ==> guarded_at((#[trigger] steps[i]).guard, id, steps[i].now),
    ensures
        after_steps(s, steps).messages.contains_key(id) == s.messages.contains_key(id),
        after_steps(s, steps).messages[id] == s.messages[id],
        forall|l: Seq<char>| after_steps(s, steps).linked(id, l) == s.linked(id, l),
    decreases steps.len(),
{
    if steps.len() > 0 {
        let head = steps.drop_last();
        let step = steps.last();
        assert forall|i: int| 0 <= i < head.len() implies guarded_at(
            (#[trigger] head[i]).guard,
            id,
            head[i].now,
        ) by {
            assert(head[i] == steps[i]);
        }
        lemma_guarded_through_steps(s, head, id);
        assert(steps[steps.len() - 1] == step);
        lemma_guarded_message_untouched(
            after_steps(s, head),
            step.guard,
            step.now,
            step.label_id,
            step.page,
            step.truncated,
            step.fetched,
            step.local,
            id,
        );
    }
}

/// A thread is deleted, the background synchronisation merges any number of
/// pages while the guard shields the thread, and the deletion is undone: the
/// messages of the thread are in the store again exactly as they were, under
/// the label that was shown.
pub proof fn lemma_delete_syncs_undo(
    before: StoreView,
    captured: Seq<MessageView>,
    label_id: Seq<char>,
    index: usize,
    steps: Seq<SyncStep>,
)
    requires
        captured_from(captured, before),
        forall|i: int, k: int|
            0 <= i < steps.len() && 0 <= k < captured.len() ==> guarded_at(
                (#[trigger] steps[i]).guard,
                (#[trigger] captured[k]).id,
                steps[i].now,
            ),
    ensures
        ({
            let interim = after_steps(before.deleted_all(ids_of(captured)), steps);
            let after = undone(
                interim,
                ActionView::Delete { messages: captured, label_id, original_index: index },
            );
            forall|k: int|
                0 <= k < captured.len() ==> after.messages.contains_key((#[trigger] captured[k]).id)
                    && after.messages[captured[k].id] == before.messages[captured[k].id]
                    && after.linked(captured[k].id, label_id)
        }),
{
    let ids = ids_of(captured);
    let deleted = before.deleted_all(ids);
    let interim = after_steps(deleted, steps);
    lemma_deleted_all(before, ids);
    assert forall|k: int| 0 <= k < captured.len() implies !interim.messages.contains_key(
        (#[trigger] captured[k]).id,
    ) by {
        let id = captured[k].id;
        assert(ids[k] == id);
        lemma_guarded_through_steps(deleted, steps, id);
    }
    lemma_undo_delete_restores(before, captured, label_id, index, interim);
}

/// Archiving a thread whose messages all stand under the label and undoing
/// it leaves the store as it was before.
pub proof fn lemma_archive_undo_restores(
    before: StoreView,
    captured: Seq<MessageView>,
    label_id: Seq<char>,
    index: usize,
)
    requires
        captured_from(captured, before),
        forall|k: int| 0 <= k < captured.len() ==> before.linked((#[trigger] captured[k]).id, label_id),
    ensures
        undone(
            before.unlinked_all(ids_of(captured), label_id),
            ActionView::Archive { messages: captured, label_id, original_index: index },
        ) == before,
{
    let ids = ids_of(captured);
    let archived = before.unlinked_all(ids, label_id);
    let after = archived.upserted_all(captured, label_id);
    lemma_unlinked_all(before, ids, label_id);
    lemma_upserted_all(archived, captured, label_id);
    lemma_store_same(archived, captured, label_id);
    assert forall|p: (Seq<char>, Seq<char>)| after.links.contains(p) <==> before.links.contains(
        p,
    ) by {
        if p.1 == label_id && ids.contains(p.0) {
            lemma_ids_of(captured, p.0);
            let k = choose|k: int| 0 <= k < captured.len() && (#[trigger] captured[k]).id == p.0;
            assert(before.linked(captured[k].id, label_id));
        }
    }
    assert(after.links =~= before.links);
}

/// Archiving a thread, undoing that, and archiving it again leaves the
/// links of the store as the first archiving left them.
pub proof fn lemma_archive_undo_archive(
    before: StoreView,
    captured: Seq<MessageView>,
    label_id: Seq<char>,
    index: usize,
)
    ensures
        undone(
            before.unlinked_all(ids_of(captured), label_id),
            ActionView::Archive { messages: captured, label_id, original_index: index },
        ).unlinked_all(ids_of(captured), label_id).links == before.unlinked_all(
            ids_of(captured),
            label_id,
        ).links,
{
    let ids = ids_of(captured);
    let archived = before.unlinked_all(ids, label_id);
    let restored = archived.upserted_all(captured, label_id);
    let again = restored.unlinked_all(ids, label_id);
    lemma_unlinked_all(before, ids, label_id);
    lemma_upserted_all(archived, captured, label_id);
    lemma_unlinked_all(restored, ids, label_id);
    assert(again.links =~= archived.links);
}

/// Archiving a thread, undoing that, and archiving it again leaves the
/// links of the store as they were before the first archiving, for a thread
/// of which no message stood under the label then.
pub proof fn lemma_archive_round_trip(
    before: StoreView,
    captured: Seq<MessageView>,
    label_id: Seq<char>,
    index: usize,
)
    requires
        forall|k: int| 0 <= k < captured.len() ==> !before.linked((#[trigger] captured[k]).id, label_id),
    ensures
        undone(
            before.unlinked_all(ids_of(captured), label_id),
            ActionView::Archive { messages: captured, label_id, original_index: index },
        ).unlinked_all(ids_of(captured), label_id).links == before.links,
{
    let ids = ids_of(captured);
    let archived = before.unlinked_all(ids, label_id);
    lemma_archive_undo_archive(before, captured, label_id, index);
    lemma_unlinked_all(before, ids, label_id);
    assert forall|p: (Seq<char>, Seq<char>)| archived.links.contains(p) <==> before.links.contains(
        p,
    ) by {
        if p.1 == label_id && ids.contains(p.0) {
            lemma_ids_of(captured, p.0);
            let k = choose|k: int| 0 <= k < captured.len() && (#[trigger] captured[k]).id == p.0;
            assert(!before.linked(captured[k].id, label_id));
        }
    }
    assert(archived.links =~= before.links);
}

/// Taking back an archiving that the remote service refused leaves the
/// store as it was before the archiving.
pub proof fn lemma_archive_rollback_restores(
    before: StoreView,
    captured: Seq<MessageView>,
    label_id: Seq<char>,
    index: usize,
)
    ensures
        rolled_back(
            before.unlinked_all(ids_of(captured), label_id),
            ActionView::Archive { messages: captured, label_id, original_index: index },
            ids_of(captured).filter(linked_under(before.links, label_id)),
        ) == before,
{
    broadcast use vstd::seq_lib::group_filter_ensures;

    let ids = ids_of(captured);
    let had = ids.filter(linked_under(before.links, label_id));
    let archived = before.unlinked_all(ids, label_id);
    let after = archived.relinked_all(had, label_id);
    lemma_unlinked_all(before, ids, label_id);
    lemma_relinked_all(archived, had, label_id);
    assert forall|p: (Seq<char>, Seq<char>)| after.links.contains(p) <==> before.links.contains(
        p,
    ) by {
        if had.contains(p.0) {
            ids.lemma_filter_contains_rev(linked_under(before.links, label_id), p.0);
        }
        if before.links.contains(p) && p.1 == label_id && ids.contains(p.0) {
            let k = choose|k: int| 0 <= k < ids.len() && ids[k] == p.0;
            ids.lemma_filter_contains(linked_under(before.links, label_id), k);
        }
    }
    assert(after.links =~= before.links);
}

/// Taking back a deletion that the remote service refused puts the message
/// table back as it was, with every message of the thread under the label
/// that was shown.
pub proof fn lemma_delete_rollback_restores(
    before: StoreView,
    captured: Seq<MessageView>,
    label_id: Seq<char>,
    index: usize,
)
    requires
        captured_from(captured, before),
    ensures
        ({
            let after = rolled_back(
                before.deleted_all(ids_of(captured)),
                ActionView::Delete { messages: captured, label_id, original_index: index },
                Seq::empty(),
            );
            &&& after.messages == before.messages
            &&& after.labels == before.labels
            &&& forall|k: int|
                0 <= k < captured.len() ==> after.linked((#[trigger] captured[k]).id, label_id)
        }),
{
    let ids = ids_of(captured);
    let deleted = before.deleted_all(ids);
    let after = deleted.upserted_all(captured, label_id);
    lemma_deleted_all(before, ids);
    assert forall|k: int| 0 <= k < captured.len() implies !deleted.messages.contains_key(
        (#[trigger] captured[k]).id,
    ) by {
        assert(ids[k] == captured[k].id);
    }
    lemma_undo_delete_restores(before, captured, label_id, index, deleted);
    lemma_upserted_all(deleted, captured, label_id);
    assert forall|id: Seq<char>| after.messages.contains_key(id) <==> before.messages.contains_key(
        id,
    ) by {
        lemma_ids_of(captured, id);
    }
    assert forall|id: Seq<char>| after.messages.contains_key(id) implies after.messages[id]
        == before.messages[id] by {
        lemma_ids_of(captured, id);
    }
    assert(after.messages =~= before.messages);
}

/// Marking messages and withdrawing the marks again leaves none of them
/// guarded, and leaves the entries of all other messages as they were.
pub proof fn lemma_unmark_clears(guard: Map<Seq<char>, u64>, ids: Seq<Seq<char>>, now: u64)
    ensures
        forall|id: Seq<char>|
            ids.contains(id) ==> !(#[trigger] unmarked(marked(guard, ids, now), ids).contains_key(
                id,
            )),
        forall|id: Seq<char>|
            !ids.contains(id) ==> (#[trigger] unmarked(marked(guard, ids, now), ids).contains_key(
                id,
            ) == guard.contains_key(id)),
        forall|id: Seq<char>|
            !ids.contains(id) && guard.contains_key(id) ==> #[trigger] unmarked(
                marked(guard, ids, now),
                ids,
            )[id] == guard[id],
{
}

/// A message that was marked is guarded from that moment until the grace
/// period has passed, and not after.
pub proof fn lemma_mark_guards(guard: Map<Seq<char>, u64>, ids: Seq<Seq<char>>, now: u64, id: Seq<char>, later: u64)
    requires
        ids.contains(id),
    ensures
        guarded_at(marked(guard, ids, now), id, later) <==> later - now < GRACE_PERIOD_MILLIS,
{
}

} // verus!

//! The reconciler: how one page of a label's remote message ids is merged
//! into the local store.
//!
//! The remote service is asked for one page of the label's message ids. The
//! ids that the modification guard shields are left out of everything that
//! follows. Of the others, those that the store does not know are fetched and
//! stored under the label. Then, only if the page is the whole label and not
//! empty, the store's own messages under the label that the page did not
//! name lose the label: they were taken out of it elsewhere. A page that has
//! a successor says nothing about what it does not name, so it removes
//! nothing.

use vstd::prelude::*;
use crate::models::{Label, Message, MessageView};
use crate::priority::{drained, prioritized, processing_order, PriorityQueue, RefreshSignal};
use crate::ranking::is_ranking;
use crate::store::{at_most, dated_ids, ids_of, lemma_unlinked_all, lemma_upserted_all,
    message_ids, under_label, LocalStore, StoreView};
use crate::sync::{guarded_at, purged, SyncState};
use crate::texts::{contains_text, lemma_take_step};

verus! {

/// How many message ids one page asks for.
pub const PAGE_SIZE: u32 = 100;

/// How many of the store's newest messages under a label are looked at when
/// removals are inferred.
pub const REMOVAL_WINDOW: usize = 200;

/// How long the synchronisation rests between two cycles, in seconds.
pub const SYNC_INTERVAL_SECS: u64 = 30;

/// A message id of a remote page, with the date under which the store has
/// the message, if it has it.
#[derive(Debug)]
pub struct PageEntry {
    pub id: String,
    pub local_date: Option<i64>,
}

/// What a [`PageEntry`] holds, as mathematical values.
pub struct PageEntryView {
    pub id: Seq<char>,
    pub local_date: Option<i64>,
}

impl View for PageEntry {
    type V = PageEntryView;

    open spec fn view(&self) -> PageEntryView {
        PageEntryView { id: self.id@, local_date: self.local_date }
    }
}

impl DeepView for PageEntry {
    type V = PageEntryView;

    open spec fn deep_view(&self) -> PageEntryView {
        self@
    }
}

/// What is to be done with a page: which of its ids count as seen, which of
/// those have to be fetched, and the oldest date among those that the store
/// has already.
#[derive(Debug)]
pub struct PagePlan {
    pub seen: Vec<String>,
    pub to_fetch: Vec<String>,
    pub oldest_known: i64,
}

/// The entries that the guard does not shield at `now`.
pub open spec fn unguarded_entry(guard: Map<Seq<char>, u64>, now: u64) -> spec_fn(
    PageEntryView,
) -> bool {
    |e: PageEntryView| !guarded_at(guard, e.id, now)
}

/// The entries that the guard does not shield at `now` and that the store
/// does not have.
pub open spec fn unknown_entry(guard: Map<Seq<char>, u64>, now: u64) -> spec_fn(
    PageEntryView,
) -> bool {
    |e: PageEntryView| !guarded_at(guard, e.id, now) && e.local_date is None
}

/// The entries that the guard does not shield at `now` and that the store
/// has.
pub open spec fn known_entry(guard: Map<Seq<char>, u64>, now: u64) -> spec_fn(
    PageEntryView,
) -> bool {
    |e: PageEntryView| !guarded_at(guard, e.id, now) && e.local_date is Some
}

/// The messages that the guard does not shield at `now`.
pub open spec fn unguarded_message(guard: Map<Seq<char>, u64>, now: u64) -> spec_fn(
    MessageView,
) -> bool {
    |m: MessageView| !guarded_at(guard, m.id, now)
}

/// The ids of `entries`, in order.
pub open spec fn entry_ids(entries: Seq<PageEntryView>) -> Seq<Seq<char>> {
    Seq::new(entries.len(), |k: int| entries[k].id)
}

/// The first components of `pairs`, in order.
pub open spec fn pair_ids(pairs: Seq<(Seq<char>, i64)>) -> Seq<Seq<char>> {
    Seq::new(pairs.len(), |k: int| pairs[k].0)
}

/// The ids of the page that count as seen: those that the guard does not
/// shield.
pub open spec fn seen_ids(page: Seq<PageEntryView>, guard: Map<Seq<char>, u64>, now: u64) -> Seq<
    Seq<char>,
> {
    entry_ids(page.filter(unguarded_entry(guard, now)))
}

/// The ids of the page that have to be fetched: those seen that the store
/// does not know.
pub open spec fn fetch_ids(page: Seq<PageEntryView>, guard: Map<Seq<char>, u64>, now: u64) -> Seq<
    Seq<char>,
> {
    entry_ids(page.filter(unknown_entry(guard, now)))
}

/// The smaller of two dates.
pub open spec fn older(a: i64, b: i64) -> i64 {
    if a <= b {
        a
    } else {
        b
    }
}

/// The oldest local date among the entries, or `bound` if none is older.
pub open spec fn oldest_entry(entries: Seq<PageEntryView>, bound: i64) -> i64
    decreases entries.len(),
{
    if entries.len() == 0 {
        bound
    } else {
        match entries.last().local_date {
            Some(d) => older(oldest_entry(entries.drop_last(), bound), d),
            None => oldest_entry(entries.drop_last(), bound),
        }
    }
}

/// The oldest date among the rows, or `bound` if none is older.
pub open spec fn oldest_message(rows: Seq<MessageView>, bound: i64) -> i64
    decreases rows.len(),
{
    if rows.len() == 0 {
        bound
    } else {
        older(oldest_message(rows.drop_last(), bound), rows.last().internal_date)
    }
}

/// The oldest date among the seen ids of the page that the store has
/// already; `i64::MAX` if it has none of them.
pub open spec fn oldest_known(page: Seq<PageEntryView>, guard: Map<Seq<char>, u64>, now: u64) -> i64 {
    oldest_entry(page.filter(known_entry(guard, now)), i64::MAX)
}

/// Whether a page allows removals to be inferred: it is the whole label, and
/// it is not empty.
pub open spec fn inference_allowed(truncated: bool, page_len: nat) -> bool {
    !truncated && page_len > 0
}

/// The oldest date that a page covers. A page without a successor covers the
/// whole label, from date 0 on; a page with a successor covers what is not
/// older than the oldest message it names, fetched now or known before.
pub open spec fn watermark(truncated: bool, oldest_known: i64, fetched: Seq<MessageView>) -> i64 {
    if truncated {
        oldest_message(fetched, oldest_known)
    } else {
        0
    }
}

/// The local messages that lose the label: not shielded by the guard, not
/// older than the watermark, and not seen on the page.
pub open spec fn removable(
    seen: Seq<Seq<char>>,
    guard: Map<Seq<char>, u64>,
    now: u64,
    watermark: i64,
) -> spec_fn((Seq<char>, i64)) -> bool {
    |p: (Seq<char>, i64)| !guarded_at(guard, p.0, now) && p.1 >= watermark && !seen.contains(p.0)
}

/// The ids among `local`, the store's messages under the label with their
/// dates, that lose the label.
pub open spec fn removals(
    local: Seq<(Seq<char>, i64)>,
    seen: Seq<Seq<char>>,
    guard: Map<Seq<char>, u64>,
    now: u64,
    watermark: i64,
) -> Seq<Seq<char>> {
    pair_ids(local.filter(removable(seen, guard, now, watermark)))
}

/// The ids of `labels`, in order.
pub open spec fn label_ids(labels: Seq<crate::models::LabelView>) -> Seq<Seq<char>> {
    Seq::new(labels.len(), |k: int| labels[k].id)
}

/// Decides the order in which a cycle works through the labels that the
/// remote service listed: the queue is drained, and the label that was
/// pushed into it last, if it is among those listed, goes first.
pub fn plan_cycle(labels: &Vec<Label>, queue: &mut PriorityQueue) -> (r: Vec<String>)
    ensures
        r.deep_view() == prioritized(label_ids(labels.deep_view()), drained(old(queue)@)),
        final(queue)@ == Seq::<Seq<char>>::empty(),
        final(queue).spec_capacity() == old(queue).spec_capacity(),
{
    let priority = queue.drain();
    let mut ids: Vec<String> = Vec::new();
    let mut i: usize = 0;
    while i < labels.len()
        invariant
            i <= labels.len(),
            ids.len() == i,
            forall|k: int| 0 <= k < i ==> ids[k]@ == labels[k].id@,
        decreases labels.len() - i,
    {
        ids.push(labels[i].id.clone());
        i += 1;
    }
    assert(ids.deep_view() =~= label_ids(labels.deep_view()));
    processing_order(&ids, &priority)
}

/// Turns to the label `label_id` at the moment `now`: the label is noted as
/// the one in work, and the guard entries that have expired are dropped.
pub fn start_label(state: &mut SyncState, now: u64, label_id: &str)
    ensures
        final(state)@.currently_syncing == Some(label_id@),
        final(state)@.recently_modified == purged(old(state)@.recently_modified, now),
        final(state)@.synced_labels == old(state)@.synced_labels,
{
    state.begin_label(label_id);
    state.cleanup_expired_at(now);
}

/// Decides what to do with the page `page` at the moment `now`.
pub fn plan_page(state: &SyncState, now: u64, page: &Vec<PageEntry>) -> (plan: PagePlan)
    ensures
        plan.seen.deep_view() == seen_ids(page.deep_view(), state@.recently_modified, now),
        plan.to_fetch.deep_view() == fetch_ids(page.deep_view(), state@.recently_modified, now),
        plan.oldest_known == oldest_known(page.deep_view(), state@.recently_modified, now),
{
    let ghost guard = state@.recently_modified;
    let ghost entries = page.deep_view();
    let mut seen: Vec<String> = Vec::new();
    let mut to_fetch: Vec<String> = Vec::new();
    let mut oldest: i64 = i64::MAX;
    let mut i: usize = 0;
    while i < page.len()
        invariant
            i <= page.len(),
            entries == page.deep_view(),
            guard == state@.recently_modified,
            seen.deep_view() == seen_ids(entries.take(i as int), guard, now),
            to_fetch.deep_view() == fetch_ids(entries.take(i as int), guard, now),
            oldest == oldest_known(entries.take(i as int), guard, now),
        decreases page.len() - i,
    {
        let ghost seen_before = seen.deep_view();
        let ghost fetch_before = to_fetch.deep_view();
        let ghost head = entries.take(i as int);
        proof {
            lemma_take_step(entries, i as int);
            head.lemma_filter_push(entries[i as int], unguarded_entry(guard, now));
            head.lemma_filter_push(entries[i as int], unknown_entry(guard, now));
            head.lemma_filter_push(entries[i as int], known_entry(guard, now));
        }
        if !state.is_recently_modified_at(page[i].id.as_str(), now) {
            seen.push(page[i].id.clone());
            proof {
                assert(seen.deep_view() =~= seen_before.push(entries[i as int].id));
                assert(seen_ids(entries.take(i + 1), guard, now) =~= seen_before.push(
                    entries[i as int].id,
                ));
            }
            match page[i].local_date {
                Some(d) => {
                    proof {
                        let known = head.filter(known_entry(guard, now));
                        assert(known.push(entries[i as int]).drop_last() =~= known);
                    }
                    if d < oldest {
                        oldest = d;
                    }
                },
                None => {
                    to_fetch.push(page[i].id.clone());
                    proof {
                        assert(to_fetch.deep_view() =~= fetch_before.push(entries[i as int].id));
                        assert(fetch_ids(entries.take(i + 1), guard, now) =~= fetch_before.push(
                            entries[i as int].id,
                        ));
                    }
                },
            }
        }
        i += 1;
    }
    proof {
        assert(entries.take(i as int) =~= entries);
    }
    PagePlan { seen, to_fetch, oldest_known: oldest }
}

/// The messages among `fetched` that the guard does not shield at `now`.
pub fn accepted_messages(state: &SyncState, now: u64, fetched: &Vec<Message>) -> (r: Vec<Message>)
    ensures
        r.deep_view() == fetched.deep_view().filter(
            unguarded_message(state@.recently_modified, now),
        ),
{
    let ghost guard = state@.recently_modified;
    let ghost rows = fetched.deep_view();
    let mut out: Vec<Message> = Vec::new();
    let mut i: usize = 0;
    while i < fetched.len()
        invariant
            i <= fetched.len(),
            rows == fetched.deep_view(),
            guard == state@.recently_modified,
            out.deep_view() == rows.take(i as int).filter(unguarded_message(guard, now)),
        decreases fetched.len() - i,
    {
        let ghost before = out.deep_view();
        proof {
            lemma_take_step(rows, i as int);
            rows.take(i as int).lemma_filter_push(rows[i as int], unguarded_message(guard, now));
        }
        if !state.is_recently_modified_at(fetched[i].id.as_str(), now) {
            out.push(fetched[i].duplicate());
            assert(out.deep_view() =~= before.push(rows[i as int]));
        }
        i += 1;
    }
    proof {
        assert(rows.take(i as int) =~= rows);
    }
    out
}

/// The oldest date that a page covers, given whether it has a successor, the
/// oldest date among its ids that the store had already, and the messages
/// fetched for it.
pub fn page_watermark(truncated: bool, oldest_known: i64, fetched: &Vec<Message>) -> (r: i64)
    ensures
        r == watermark(truncated, oldest_known, fetched.deep_view()),
{
    if !truncated {
        return 0;
    }
    let ghost rows = fetched.deep_view();
    let mut oldest: i64 = oldest_known;
    let mut i: usize = 0;
    while i < fetched.len()
        invariant
            i <= fetched.len(),
            rows == fetched.deep_view(),
            oldest == oldest_message(rows.take(i as int), oldest_known),
        decreases fetched.len() - i,
    {
        proof {
            assert(rows.take(i + 1).drop_last() =~= rows.take(i as int));
        }
        if fetched[i].internal_date < oldest {
            oldest = fetched[i].internal_date;
        }
        i += 1;
    }
    proof {
        assert(rows.take(i as int) =~= rows);
    }
    oldest
}

/// The ids among `local` that lose the label, given the ids seen on the
/// page and the page's watermark.
pub fn removal_candidates(
    local: &Vec<(String, i64)>,
    seen: &Vec<String>,
    state: &SyncState,
    now: u64,
    watermark: i64,
) -> (r: Vec<String>)
    ensures
        r.deep_view() == removals(
            local.deep_view(),
            seen.deep_view(),
            state@.recently_modified,
            now,
            watermark,
        ),
{
    let ghost guard = state@.recently_modified;
    let ghost pairs = local.deep_view();
    let ghost pred = removable(seen.deep_view(), guard, now, watermark);
    let mut out: Vec<String> = Vec::new();
    let mut i: usize = 0;
    while i < local.len()
        invariant
            i <= local.len(),
            pairs == local.deep_view(),
            guard == state@.recently_modified,
            pred == removable(seen.deep_view(), guard, now, watermark),
            out.deep_view() == pair_ids(pairs.take(i as int).filter(pred)),
        decreases local.len() - i,
    {
        let ghost before = out.deep_view();
        proof {
            lemma_take_step(pairs, i as int);
            pairs.take(i as int).lemma_filter_push(pairs[i as int], pred);
            assert(pairs[i as int] == (local[i as int].0@, local[i as int].1));
        }
        if !state.is_recently_modified_at(local[i].0.as_str(), now) && local[i].1 >= watermark
            && !contains_text(seen, &local[i].0) {
            out.push(local[i].0.clone());
            proof {
                assert(out.deep_view() =~= before.push(pairs[i as int].0));
                assert(pair_ids(pairs.take(i + 1).filter(pred)) =~= before.push(pairs[i as int].0));
            }
        }
        i += 1;
    }
    proof {
        assert(pairs.take(i as int) =~= pairs);
    }
    out
}

/// The store after the messages fetched for a page, but for those that the
/// guard shields, were stored under the label.
pub open spec fn stored_page(
    before: StoreView,
    guard: Map<Seq<char>, u64>,
    now: u64,
    label_id: Seq<char>,
    fetched: Seq<MessageView>,
) -> StoreView {
    before.upserted_all(fetched.filter(unguarded_message(guard, now)), label_id)
}

/// The ids and dates of the first rows of a ranking, as many as the removal
/// window holds.
pub open spec fn newest_window(ranking: Seq<MessageView>) -> Seq<(Seq<char>, i64)> {
    dated_ids(ranking.take(at_most(REMOVAL_WINDOW, ranking.len())))
}

/// The store after a page was merged into it: the messages fetched for the
/// page, but for those that the guard shields, are stored under the label;
/// then, if the page allows it, the ids that [`removals`] picks from
/// `local`, the store's messages under the label at that point, lose the
/// label.
pub open spec fn sync_effect(
    before: StoreView,
    guard: Map<Seq<char>, u64>,
    now: u64,
    label_id: Seq<char>,
    page: Seq<PageEntryView>,
    truncated: bool,
    fetched: Seq<MessageView>,
    local: Seq<(Seq<char>, i64)>,
) -> StoreView {
    let accepted = fetched.filter(unguarded_message(guard, now));
    let stored = stored_page(before, guard, now, label_id, fetched);
    if inference_allowed(truncated, page.len()) {
        stored.unlinked_all(
            removals(
                local,
                seen_ids(page, guard, now),
                guard,
                now,
                watermark(truncated, oldest_known(page, guard, now), accepted),
            ),
            label_id,
        )
    } else {
        stored
    }
}

/// The merging left the message `id` alone: it is in the store exactly if
/// it was, its row is the same, and it stands under the same labels.
pub open spec fn guard_respected(before: StoreView, after: StoreView, id: Seq<char>) -> bool {
    &&& after.messages.contains_key(id) == before.messages.contains_key(id)
    &&& after.messages[id] == before.messages[id]
    &&& forall|l: Seq<char>| after.linked(id, l) == before.linked(id, l)
}

/// What the merging of a page did.
#[derive(Debug)]
pub struct SyncOutcome {
    /// The ids of the messages that were stored.
    pub upserted: Vec<String>,
    /// The ids of the messages that lost the label.
    pub removed: Vec<String>,
    /// Whether anything was stored or removed, so that the interface has to
    /// be told.
    pub changed: bool,
}

/// What the store knows of the message id `id` of a remote page.
pub open spec fn entry_for(store: StoreView, id: Seq<char>) -> PageEntryView {
    PageEntryView {
        id: id,
        local_date: if store.messages.contains_key(id) {
            Some(store.messages[id].internal_date)
        } else {
            None
        },
    }
}

/// For each id of a remote page, the date under which `store` has the
/// message, if it has it.
pub fn page_entries(store: &LocalStore, page_ids: &Vec<String>) -> (r: Vec<PageEntry>)
    ensures
        r.deep_view() == Seq::new(
            page_ids.deep_view().len(),
            |k: int| entry_for(store@, page_ids.deep_view()[k]),
        ),
{
    let mut out: Vec<PageEntry> = Vec::new();
    let mut i: usize = 0;
    while i < page_ids.len()
        invariant
            i <= page_ids.len(),
            out.len() == i,
            forall|k: int| 0 <= k < i ==> (#[trigger] out[k])@ == entry_for(store@, page_ids[k]@),
        decreases page_ids.len() - i,
    {
        let local_date = store.get_message_date(page_ids[i].as_str());
        out.push(PageEntry { id: page_ids[i].clone(), local_date });
        i += 1;
    }
    proof {
        let want = Seq::new(
            page_ids.deep_view().len(),
            |k: int| entry_for(store@, page_ids.deep_view()[k]),
        );
        assert forall|k: int| 0 <= k < out.len() implies out.deep_view()[k] == want[k] by {
            assert(out[k]@ == entry_for(store@, page_ids[k]@));
        }
        assert(out.deep_view() =~= want);
    }
    out
}

/// Merges one page of the label `label_id` into the store, at the moment
/// `now`: `page` holds the ids that the remote service listed, `truncated`
/// says whether the page has a successor, and `fetched` holds the messages
/// that were fetched for the ids of [`plan_page`]. Afterwards the label
/// counts as synchronised and no label is in work.
pub fn sync_label(
    store: &mut LocalStore,
    state: &mut SyncState,
    now: u64,
    label_id: &str,
    page: &Vec<PageEntry>,
    truncated: bool,
    fetched: &Vec<Message>,
) -> (outcome: SyncOutcome)
    ensures
        !inference_allowed(truncated, page.deep_view().len()) ==> final(store)@ == sync_effect(
            old(store)@,
            old(state)@.recently_modified,
            now,
            label_id@,
            page.deep_view(),
            truncated,
            fetched.deep_view(),
            Seq::empty(),
        ) && outcome.removed.deep_view() == Seq::<Seq<char>>::empty(),
        inference_allowed(truncated, page.deep_view().len()) ==> exists|ranking: Seq<MessageView>|
            #![trigger newest_window(ranking)]
            {
                &&& is_ranking(
                    ranking,
                    stored_page(
                        old(store)@,
                        old(state)@.recently_modified,
                        now,
                        label_id@,
                        fetched.deep_view(),
                    ).messages,
                    under_label(
                        stored_page(
                            old(store)@,
                            old(state)@.recently_modified,
                            now,
                            label_id@,
                            fetched.deep_view(),
                        ).links,
                        label_id@,
                    ),
                )
                &&& final(store)@ == sync_effect(
                    old(store)@,
                    old(state)@.recently_modified,
                    now,
                    label_id@,
                    page.deep_view(),
                    truncated,
                    fetched.deep_view(),
                    newest_window(ranking),
                )
                &&& outcome.removed.deep_view() == removals(
                    newest_window(ranking),
                    seen_ids(page.deep_view(), old(state)@.recently_modified, now),
                    old(state)@.recently_modified,
                    now,
                    0,
                )
            },
        truncated ==> old(store)@.links.subset_of(final(store)@.links),
        forall|id: Seq<char>| #[trigger]
            guarded_at(old(state)@.recently_modified, id, now) ==> guard_respected(
                old(store)@,
                final(store)@,
                id,
            ),
        outcome.upserted.deep_view() == ids_of(
            fetched.deep_view().filter(unguarded_message(old(state)@.recently_modified, now)),
        ),
        outcome.changed == (outcome.upserted.len() > 0 || outcome.removed.len() > 0),
        final(store)@.wf(),
        final(state)@.recently_modified == old(state)@.recently_modified,
        final(state)@.synced_labels == old(state)@.synced_labels.insert(label_id@),
        final(state)@.currently_syncing == None::<Seq<char>>,
{
    let ghost before = store@;
    let ghost guard = state@.recently_modified;
    let plan = plan_page(state, now, page);
    let accepted = accepted_messages(state, now, fetched);
    store.upsert_messages(&accepted, label_id);
    let upserted = message_ids(&accepted);
    let mut removed: Vec<String> = Vec::new();
    let ghost local_view = Seq::<(Seq<char>, i64)>::empty();
    if !truncated && page.len() > 0 {
        let mark = page_watermark(truncated, plan.oldest_known, &accepted);
        let local = store.get_messages_with_dates_by_label(label_id, REMOVAL_WINDOW);
        let ghost stored = store@;
        let ghost ranking = choose|ranking: Seq<MessageView>| #[trigger]
            is_ranking(ranking, stored.messages, under_label(stored.links, label_id@))
                && local.deep_view() == dated_ids(
                ranking.take(at_most(REMOVAL_WINDOW, ranking.len())),
            );
        removed = removal_candidates(&local, &plan.seen, state, now, mark);
        store.remove_label_from_messages(&removed, label_id);
        proof {
            assert(stored == stored_page(before, guard, now, label_id@, fetched.deep_view()));
            assert(local.deep_view() == newest_window(ranking));
            local_view = newest_window(ranking);
            assert(store@ == sync_effect(
                before,
                guard,
                now,
                label_id@,
                page.deep_view(),
                truncated,
                fetched.deep_view(),
                newest_window(ranking),
            ));
        }
    } else {
        assert(removed.deep_view() =~= Seq::<Seq<char>>::empty());
    }
    proof {
        if truncated {
            lemma_truncated_page_removes_nothing(
                before,
                guard,
                now,
                label_id@,
                page.deep_view(),
                fetched.deep_view(),
                local_view,
            );
        }
        assert forall|id: Seq<char>| #[trigger] guarded_at(guard, id, now) implies guard_respected(
            before,
            store@,
            id,
        ) by {
            lemma_guarded_message_untouched(
                before,
                guard,
                now,
                label_id@,
                page.deep_view(),
                truncated,
                fetched.deep_view(),
                local_view,
                id,
            );
        }
    }
    state.finish_label(label_id);
    let changed = upserted.len() > 0 || removed.len() > 0;
    SyncOutcome { upserted, removed, changed }
}

/// Tells the interface that the store has changed, if the merging of a page
/// changed it.
pub fn notify(signal: &mut RefreshSignal, outcome: &SyncOutcome)
    ensures
        final(signal)@ == (old(signal)@ || outcome.changed),
{
    if outcome.changed {
        signal.emit();
    }
}

/// While a page has a successor, merging it takes no label from any
/// message: every link that was in the store is still there.
pub proof fn lemma_truncated_page_removes_nothing(
    before: StoreView,
    guard: Map<Seq<char>, u64>,
    now: u64,
    label_id: Seq<char>,
    page: Seq<PageEntryView>,
    fetched: Seq<MessageView>,
    local: Seq<(Seq<char>, i64)>,
)
    ensures
        before.links.subset_of(
            sync_effect(before, guard, now, label_id, page, true, fetched, local).links,
        ),
{
    let accepted = fetched.filter(unguarded_message(guard, now));
    lemma_upserted_all(before, accepted, label_id);
}

/// Merging an empty page takes no label from any message either.
pub proof fn lemma_empty_page_removes_nothing(
    before: StoreView,
    guard: Map<Seq<char>, u64>,
    now: u64,
    label_id: Seq<char>,
    truncated: bool,
    fetched: Seq<MessageView>,
    local: Seq<(Seq<char>, i64)>,
)
    ensures
        before.links.subset_of(
            sync_effect(
                before,
                guard,
                now,
                label_id,
                Seq::empty(),
                truncated,
                fetched,
                local,
            ).links,
        ),
{
    let accepted = fetched.filter(unguarded_message(guard, now));
    lemma_upserted_all(before, accepted, label_id);
}

/// A message that the guard shields at the moment of the merge is left
/// alone by it: its row is neither stored nor changed, and it neither gains
/// nor loses a label. This holds whatever the page, the fetched messages
/// and the store's own list say.
pub proof fn lemma_guarded_message_untouched(
    before: StoreView,
    guard: Map<Seq<char>, u64>,
    now: u64,
    label_id: Seq<char>,
    page: Seq<PageEntryView>,
    truncated: bool,
    fetched: Seq<MessageView>,
    local: Seq<(Seq<char>, i64)>,
    id: Seq<char>,
)
    requires
        guarded_at(guard, id, now),
    ensures
        guard_respected(
            before,
            sync_effect(before, guard, now, label_id, page, truncated, fetched, local),
            id,
        ),
{
    broadcast use vstd::seq_lib::group_filter_ensures;

    let accepted = fetched.filter(unguarded_message(guard, now));
    let stored = before.upserted_all(accepted, label_id);
    lemma_upserted_all(before, accepted, label_id);
    assert(!ids_of(accepted).contains(id)) by {
        if ids_of(accepted).contains(id) {
            let k = choose|k: int| 0 <= k < accepted.len() && ids_of(accepted)[k] == id;
            assert(unguarded_message(guard, now)(accepted[k]));
        }
    }
    let mark = watermark(truncated, oldest_known(page, guard, now), accepted);
    let seen = seen_ids(page, guard, now);
    let gone = removals(local, seen, guard, now, mark);
    lemma_unlinked_all(stored, gone, label_id);
    assert(!gone.contains(id)) by {
        if gone.contains(id) {
            let kept = local.filter(removable(seen, guard, now, mark));
            let k = choose|k: int| 0 <= k < gone.len() && gone[k] == id;
            assert(removable(seen, guard, now, mark)(kept[k]));
        }
    }
    let after = sync_effect(before, guard, now, label_id, page, truncated, fetched, local);
    assert forall|l: Seq<char>| after.linked(id, l) == before.linked(id, l) by {
        assert(stored.links.contains((id, l)) == before.links.contains((id, l)));
    }
}

} // verus!

//! The state that the background synchronisation shares with the interactive
//! side: which labels have been synchronised, which one is in work, and the
//! modification guard.
//!
//! The guard records when a message was last changed locally. For a grace
//! period after that moment the synchronisation leaves the message alone, so
//! that a stale answer of the remote service cannot undo the change.

use vstd::prelude::*;
use std::time::Instant;
use crate::clock::{instant_now, millis_since};
use crate::keyed::{as_map, distinct_keys, has_key, lemma_empty, lemma_entry, lemma_push,
    lemma_remove, lemma_update, position, Keyed};
use crate::models::{copy_text, text_view};
use crate::texts::{contains_text, lemma_push_to_set, lemma_take_step};

verus! {

/// How long a local change shields a message: five minutes, in milliseconds.
pub const GRACE_PERIOD_MILLIS: u64 = 300_000;

/// One entry of the guard: a message and the moment of its last local change,
/// in milliseconds of the state's clock.
#[derive(Debug)]
pub struct GuardEntry {
    pub id: String,
    pub marked_at: u64,
}

/// What a [`GuardEntry`] holds, as mathematical values.
pub struct GuardEntryView {
    pub id: Seq<char>,
    pub marked_at: u64,
}

impl View for GuardEntry {
    type V = GuardEntryView;

    open spec fn view(&self) -> GuardEntryView {
        GuardEntryView { id: self.id@, marked_at: self.marked_at }
    }
}

impl DeepView for GuardEntry {
    type V = GuardEntryView;

    open spec fn deep_view(&self) -> GuardEntryView {
        self@
    }
}

impl Keyed for GuardEntryView {
    open spec fn key(&self) -> Seq<char> {
        self.id
    }
}

/// The guard as a map from message id to the moment of the last local change.
pub open spec fn guard_map(entries: Seq<GuardEntryView>) -> Map<Seq<char>, u64> {
    as_map(entries).map_values(|e: GuardEntryView| e.marked_at)
}

/// The entry of `id` shields it at the moment `now`: there is one, and it is
/// younger than the grace period. An entry stamped later than `now` counts as
/// new.
pub open spec fn guarded_at(guard: Map<Seq<char>, u64>, id: Seq<char>, now: u64) -> bool {
    guard.contains_key(id) && now - guard[id] < GRACE_PERIOD_MILLIS
}

/// The guard after each of `ids` was marked at `now`.
pub open spec fn marked(guard: Map<Seq<char>, u64>, ids: Seq<Seq<char>>, now: u64) -> Map<
    Seq<char>,
    u64,
> {
    Map::new(
        |id: Seq<char>| guard.contains_key(id) || ids.contains(id),
        |id: Seq<char>|
            if ids.contains(id) {
                now
            } else {
                guard[id]
            },
    )
}

/// The guard without the entries of `ids`.
pub open spec fn unmarked(guard: Map<Seq<char>, u64>, ids: Seq<Seq<char>>) -> Map<Seq<char>, u64> {
    Map::new(
        |id: Seq<char>| guard.contains_key(id) && !ids.contains(id),
        |id: Seq<char>| guard[id],
    )
}

/// The guard without the entries that no longer shield anything at `now`.
pub open spec fn purged(guard: Map<Seq<char>, u64>, now: u64) -> Map<Seq<char>, u64> {
    Map::new(|id: Seq<char>| guarded_at(guard, id, now), |id: Seq<char>| guard[id])
}

/// What a [`SyncState`] holds, as mathematical values.
pub struct SyncStateView {
    /// The labels that were synchronised in full at least once.
    pub synced_labels: Set<Seq<char>>,
    /// The label in work, if any.
    pub currently_syncing: Option<Seq<char>>,
    /// The modification guard.
    pub recently_modified: Map<Seq<char>, u64>,
}

/// The shared synchronisation state.
#[derive(Debug)]
pub struct SyncState {
    synced_labels: Vec<String>,
    currently_syncing: Option<String>,
    recently_modified: Vec<GuardEntry>,
    origin: Instant,
}

/// The place of the entry of `id`, if it has one.
fn find_entry(entries: &Vec<GuardEntry>, id: &String) -> (r: Option<usize>)
    ensures
        match r {
            Some(i) => i < entries.len() && entries[i as int].id@ == id@,
            None => !has_key(entries.deep_view(), id@),
        },
{
    let mut i: usize = 0;
    while i < entries.len()
        invariant
            i <= entries.len(),
            forall|j: int| 0 <= j < i ==> entries[j].id@ != id@,
        decreases entries.len() - i,
    {
        if entries[i].id == *id {
            return Some(i);
        }
        i += 1;
    }
    assert forall|j: int| 0 <= j < entries.deep_view().len() implies (
    #[trigger] entries.deep_view()[j]).key() != id@ by {
        assert(entries[j].id@ != id@);
    }
    None
}

/// Stamps `id` with `now`, whether or not it had an entry.
fn mark_entry(entries: &mut Vec<GuardEntry>, id: String, now: u64)
    requires
        distinct_keys(old(entries).deep_view()),
    ensures
        distinct_keys(final(entries).deep_view()),
        guard_map(final(entries).deep_view()) == guard_map(old(entries).deep_view()).insert(
            id@,
            now,
        ),
{
    let ghost before = entries.deep_view();
    let ghost fresh = GuardEntryView { id: id@, marked_at: now };
    match find_entry(entries, &id) {
        Some(i) => {
            entries[i] = GuardEntry { id, marked_at: now };
            proof {
                assert(entries.deep_view() =~= before.update(i as int, fresh));
                lemma_update(before, i as int, fresh);
            }
        },
        None => {
            entries.push(GuardEntry { id, marked_at: now });
            proof {
                assert(entries.deep_view() =~= before.push(fresh));
                lemma_push(before, fresh);
            }
        },
    }
    assert(guard_map(entries.deep_view()) =~= guard_map(before).insert(id@, now));
}

/// Drops the entry of `id`, if it has one.
fn unmark_entry(entries: &mut Vec<GuardEntry>, id: &String)
    requires
        distinct_keys(old(entries).deep_view()),
    ensures
        distinct_keys(final(entries).deep_view()),
        guard_map(final(entries).deep_view()) == guard_map(old(entries).deep_view()).remove(id@),
{
    let ghost before = entries.deep_view();
    match find_entry(entries, id) {
        Some(i) => {
            entries.remove(i);
            proof {
                assert(entries.deep_view() =~= before.remove(i as int));
                lemma_remove(before, i as int);
            }
        },
        None => {},
    }
    assert(guard_map(entries.deep_view()) =~= guard_map(before).remove(id@));
}

/// Whether an entry stamped `marked_at` still shields its message at `now`.
fn is_live(marked_at: u64, now: u64) -> (r: bool)
    ensures
        r == (now - marked_at < GRACE_PERIOD_MILLIS),
{
    if now >= marked_at {
        now - marked_at < GRACE_PERIOD_MILLIS
    } else {
        true
    }
}

/// Drops every entry that is no longer live at `now`.
fn purge_entries(entries: &mut Vec<GuardEntry>, now: u64)
    requires
        distinct_keys(old(entries).deep_view()),
    ensures
        distinct_keys(final(entries).deep_view()),
        guard_map(final(entries).deep_view()) == purged(guard_map(old(entries).deep_view()), now),
{
    let ghost before = guard_map(entries.deep_view());
    let mut i: usize = 0;
    while i < entries.len()
        invariant
            i <= entries.len(),
            distinct_keys(entries.deep_view()),
            forall|j: int| 0 <= j < i ==> now - (#[trigger] entries[j]).marked_at < GRACE_PERIOD_MILLIS,
            forall|id: Seq<char>| #[trigger]
                guard_map(entries.deep_view()).contains_key(id) ==> before.contains_key(id)
                    && before[id] == guard_map(entries.deep_view())[id],
            forall|id: Seq<char>| #[trigger]
                guarded_at(before, id, now) ==> guard_map(entries.deep_view()).contains_key(id),
        decreases entries.len() - i,
    {
        let ghost cur = entries.deep_view();
        if is_live(entries[i].marked_at, now) {
            i += 1;
        } else {
            entries.remove(i);
            proof {
                assert(entries.deep_view() =~= cur.remove(i as int));
                lemma_remove(cur, i as int);
                lemma_entry(cur, i as int);
                assert(guard_map(entries.deep_view()) =~= guard_map(cur).remove(cur[i as int].id));
            }
        }
    }
    proof {
        let after = guard_map(entries.deep_view());
        assert forall|id: Seq<char>| after.contains_key(id) implies guarded_at(before, id, now) by {
            let p = position(entries.deep_view(), id);
            lemma_entry(entries.deep_view(), p);
            assert(entries[p].marked_at == after[id]);
        }
        assert(after =~= purged(before, now));
    }
}

impl View for SyncState {
    type V = SyncStateView;

    closed spec fn view(&self) -> SyncStateView {
        SyncStateView {
            synced_labels: self.synced_labels.deep_view().to_set(),
            currently_syncing: text_view(self.currently_syncing),
            recently_modified: guard_map(self.recently_modified.deep_view()),
        }
    }
}

impl SyncState {
    #[verifier::type_invariant]
    spec fn well_formed(&self) -> bool {
        distinct_keys(self.recently_modified.deep_view())
    }

    /// A state in which nothing is synchronised and nothing is guarded. Its
    /// clock starts now.
    pub fn new() -> (r: SyncState)
        ensures
            r@.synced_labels == Set::<Seq<char>>::empty(),
            r@.currently_syncing == None::<Seq<char>>,
            r@.recently_modified == Map::<Seq<char>, u64>::empty(),
    {
        let r = SyncState {
            synced_labels: Vec::new(),
            currently_syncing: None,
            recently_modified: Vec::new(),
            origin: instant_now(),
        };
        proof {
            lemma_empty::<GuardEntryView>();
            assert(r.recently_modified.deep_view() =~= Seq::<GuardEntryView>::empty());
            assert(r@.recently_modified =~= Map::<Seq<char>, u64>::empty());
            assert(r@.synced_labels =~= Set::<Seq<char>>::empty());
        }
        r
    }

    /// The milliseconds that have passed on this state's clock. The moments
    /// that the guard records, and those that the functions ending in `_at`
    /// take, are counted on it.
    pub fn now(&self) -> u64 {
        millis_since(&self.origin)
    }

    /// Records a local change of each of `message_ids` at the moment `now`.
    pub fn mark_modified_many_at(&mut self, message_ids: Vec<String>, now: u64)
        ensures
            final(self)@.recently_modified == marked(
                old(self)@.recently_modified,
                message_ids.deep_view(),
                now,
            ),
            final(self)@.synced_labels == old(self)@.synced_labels,
            final(self)@.currently_syncing == old(self)@.currently_syncing,
    {
        proof {
            use_type_invariant(&*self);
        }
        let ghost before = self@.recently_modified;
        let ghost ids = message_ids.deep_view();
        let mut entries: Vec<GuardEntry> = Vec::new();
        core::mem::swap(&mut entries, &mut self.recently_modified);
        let mut i: usize = 0;
        while i < message_ids.len()
            invariant
                i <= message_ids.len(),
                ids == message_ids.deep_view(),
                distinct_keys(entries.deep_view()),
                guard_map(entries.deep_view()) == marked(before, ids.take(i as int), now),
            decreases message_ids.len() - i,
        {
            let ghost cur = guard_map(entries.deep_view());
            mark_entry(&mut entries, message_ids[i].clone(), now);
            proof {
                let next = ids.take(i + 1);
                lemma_take_step(ids, i as int);
                assert(cur.insert(ids[i as int], now) =~= marked(before, next, now));
            }
            i += 1;
        }
        proof {
            assert(ids.take(i as int) =~= ids);
        }
        self.recently_modified = entries;
    }

    /// Records a local change of each of `message_ids` at the present moment
    /// of the clock.
    pub fn mark_modified_many(&mut self, message_ids: Vec<String>)
        ensures
            exists|now: u64|
                final(self)@.recently_modified == #[trigger] marked(
                    old(self)@.recently_modified,
                    message_ids.deep_view(),
                    now,
                ),
            final(self)@.synced_labels == old(self)@.synced_labels,
            final(self)@.currently_syncing == old(self)@.currently_syncing,
    {
        let now = self.now();
        self.mark_modified_many_at(message_ids, now);
    }

    /// Whether `message_id` is shielded at the moment `now`.
    pub fn is_recently_modified_at(&self, message_id: &str, now: u64) -> (r: bool)
        ensures
            r == guarded_at(self@.recently_modified, message_id@, now),
    {
        proof {
            use_type_invariant(self);
        }
        let id = message_id.to_owned();
        match find_entry(&self.recently_modified, &id) {
            Some(i) => {
                proof {
                    lemma_entry(self.recently_modified.deep_view(), i as int);
                }
                is_live(self.recently_modified[i].marked_at, now)
            },
            None => false,
        }
    }

    /// Whether `message_id` is shielded at the present moment of the clock.
    pub fn is_recently_modified(&self, message_id: &str) -> (r: bool)
        ensures
            exists|now: u64| r == #[trigger] guarded_at(self@.recently_modified, message_id@, now),
            r ==> self@.recently_modified.contains_key(message_id@),
    {
        let now = self.now();
        self.is_recently_modified_at(message_id, now)
    }

    /// Drops the entries that shield nothing any more at the moment `now`.
    pub fn cleanup_expired_at(&mut self, now: u64)
        ensures
            final(self)@.recently_modified == purged(old(self)@.recently_modified, now),
            final(self)@.synced_labels == old(self)@.synced_labels,
            final(self)@.currently_syncing == old(self)@.currently_syncing,
    {
        proof {
            use_type_invariant(&*self);
        }
        let mut entries: Vec<GuardEntry> = Vec::new();
        core::mem::swap(&mut entries, &mut self.recently_modified);
        purge_entries(&mut entries, now);
        self.recently_modified = entries;
    }

    /// Drops the entries that shield nothing any more at the present moment
    /// of the clock.
    pub fn cleanup_expired(&mut self)
        ensures
            exists|now: u64|
                final(self)@.recently_modified == #[trigger] purged(
                    old(self)@.recently_modified,
                    now,
                ),
            final(self)@.synced_labels == old(self)@.synced_labels,
            final(self)@.currently_syncing == old(self)@.currently_syncing,
    {
        let now = self.now();
        self.cleanup_expired_at(now);
    }

    /// Notes that the synchronisation has turned to the label `label_id`.
    pub fn begin_label(&mut self, label_id: &str)
        ensures
            final(self)@.currently_syncing == Some(label_id@),
            final(self)@.synced_labels == old(self)@.synced_labels,
            final(self)@.recently_modified == old(self)@.recently_modified,
    {
        proof {
            use_type_invariant(&*self);
        }
        self.currently_syncing = Some(label_id.to_owned());
    }

    /// Notes that the label `label_id` has been synchronised in full, and
    /// that no label is in work any more.
    pub fn finish_label(&mut self, label_id: &str)
        ensures
            final(self)@.synced_labels == old(self)@.synced_labels.insert(label_id@),
            final(self)@.currently_syncing == None::<Seq<char>>,
            final(self)@.recently_modified == old(self)@.recently_modified,
    {
        proof {
            use_type_invariant(&*self);
        }
        let ghost before = self.synced_labels.deep_view();
        let id = label_id.to_owned();
        if !contains_text(&self.synced_labels, &id) {
            let mut labels: Vec<String> = Vec::new();
            core::mem::swap(&mut labels, &mut self.synced_labels);
            labels.push(id);
            proof {
                assert(labels.deep_view() =~= before.push(label_id@));
                lemma_push_to_set(before, label_id@);
            }
            self.synced_labels = labels;
        } else {
            assert(before.to_set() =~= before.to_set().insert(label_id@));
        }
        self.currently_syncing = None;
    }

    /// Whether the label `label_id` has been synchronised in full at least
    /// once.
    pub fn is_label_synced(&self, label_id: &str) -> (r: bool)
        ensures
            r == self@.synced_labels.contains(label_id@),
    {
        let id = label_id.to_owned();
        contains_text(&self.synced_labels, &id)
    }

    /// The label in work, if any.
    pub fn syncing_label(&self) -> (r: Option<String>)
        ensures
            text_view(r) == self@.currently_syncing,
    {
        copy_text(&self.currently_syncing)
    }

    /// Withdraws the guard from each of `message_ids` at once, as a failed
    /// remote call requires.
    pub fn unmark_many(&mut self, message_ids: &Vec<String>)
        ensures
            final(self)@.recently_modified == unmarked(
                old(self)@.recently_modified,
                message_ids.deep_view(),
            ),
            final(self)@.synced_labels == old(self)@.synced_labels,
            final(self)@.currently_syncing == old(self)@.currently_syncing,
    {
        proof {
            use_type_invariant(&*self);
        }
        let ghost before = self@.recently_modified;
        let ghost ids = message_ids.deep_view();
        let mut entries: Vec<GuardEntry> = Vec::new();
        core::mem::swap(&mut entries, &mut self.recently_modified);
        let mut i: usize = 0;
        while i < message_ids.len()
            invariant
                i <= message_ids.len(),
                ids == message_ids.deep_view(),
                distinct_keys(entries.deep_view()),
                guard_map(entries.deep_view()) == unmarked(before, ids.take(i as int)),
            decreases message_ids.len() - i,
        {
            let ghost cur = guard_map(entries.deep_view());
            unmark_entry(&mut entries, &message_ids[i]);
            proof {
                let next = ids.take(i + 1);
                lemma_take_step(ids, i as int);
                assert(cur.remove(ids[i as int]) =~= unmarked(before, next));
            }
            i += 1;
        }
        proof {
            assert(ids.take(i as int) =~= ids);
        }
        self.recently_modified = entries;
    }
}

impl Default for SyncState {
    fn default() -> (r: SyncState)
        ensures
            r@.synced_labels == Set::<Seq<char>>::empty(),
            r@.currently_syncing == None::<Seq<char>>,
            r@.recently_modified == Map::<Seq<char>, u64>::empty(),
    {
        SyncState::new()
    }
}

} // verus!

//! How the interactive side steers the background synchronisation, and how
//! the synchronisation reports back.
//!
//! When the user turns to a label, its id is pushed into the priority queue.
//! The synchronisation drains the queue at the start of a cycle and puts the
//! label that was pushed last at the front of that cycle's work. In the other
//! direction a refresh signal tells the interface that the store has changed;
//! several signals before the interface looks count as one.

use vstd::prelude::*;
use crate::models::text_view;
use crate::texts::{contains_text, lemma_take_step};

verus! {

/// A bounded queue of label ids. Pushing never waits: into a full queue
/// nothing goes.
#[derive(Debug)]
pub struct PriorityQueue {
    pending: Vec<String>,
    capacity: usize,
}

impl View for PriorityQueue {
    type V = Seq<Seq<char>>;

    /// The label ids that wait, oldest first.
    closed spec fn view(&self) -> Seq<Seq<char>> {
        self.pending.deep_view()
    }
}

/// The ids of `ids` that do not spell `id`.
pub open spec fn other_than(id: Seq<char>) -> spec_fn(Seq<char>) -> bool {
    |x: Seq<char>| x != id
}

/// The order in which a cycle works through the labels `ids` when the
/// priority queue gave `priority`: a label of the list that has priority
/// comes first and the others keep their order; without a priority, or with
/// one that is no label of the list, the list stays as it is.
pub open spec fn prioritized(ids: Seq<Seq<char>>, priority: Option<Seq<char>>) -> Seq<Seq<char>> {
    match priority {
        Some(p) => if ids.contains(p) {
            seq![p] + ids.filter(other_than(p))
        } else {
            ids
        },
        None => ids,
    }
}

/// What waits in a queue of the given capacity after `id` was pushed: the
/// id goes last if there is room, and is dropped if there is none.
pub open spec fn after_push(pending: Seq<Seq<char>>, capacity: usize, id: Seq<char>) -> Seq<
    Seq<char>,
> {
    if pending.len() < capacity {
        pending.push(id)
    } else {
        pending
    }
}

/// What a drain of the queue gives: the id that went in last, if any waits.
pub open spec fn drained(pending: Seq<Seq<char>>) -> Option<Seq<char>> {
    if pending.len() > 0 {
        Some(pending.last())
    } else {
        None
    }
}

impl PriorityQueue {
    #[verifier::type_invariant]
    spec fn well_formed(&self) -> bool {
        self.pending.len() <= self.capacity
    }

    /// How many label ids the queue can hold.
    pub closed spec fn spec_capacity(&self) -> usize {
        self.capacity
    }

    /// An empty queue that holds up to `capacity` label ids.
    pub fn new(capacity: usize) -> (r: PriorityQueue)
        ensures
            r@ == Seq::<Seq<char>>::empty(),
            r.spec_capacity() == capacity,
    {
        let r = PriorityQueue { pending: Vec::new(), capacity };
        assert(r@ =~= Seq::<Seq<char>>::empty());
        r
    }

    /// How many label ids the queue can hold.
    #[verifier::when_used_as_spec(spec_capacity)]
    pub fn capacity(&self) -> (r: usize)
        ensures
            r == self.spec_capacity(),
    {
        self.capacity
    }

    /// How many label ids wait.
    pub fn len(&self) -> (r: usize)
        ensures
            r == self@.len(),
            r <= self.spec_capacity(),
    {
        proof {
            use_type_invariant(self);
        }
        self.pending.len()
    }

    /// Pushes `label_id` if the queue has room, and says whether it had.
    pub fn push(&mut self, label_id: String) -> (accepted: bool)
        ensures
            accepted == (old(self)@.len() < old(self).spec_capacity()),
            final(self)@ == after_push(old(self)@, old(self).spec_capacity(), label_id@),
            final(self).spec_capacity() == old(self).spec_capacity(),
    {
        proof {
            use_type_invariant(&*self);
        }
        if self.pending.len() < self.capacity {
            let ghost before = self.pending.deep_view();
            let mut pending: Vec<String> = Vec::new();
            core::mem::swap(&mut pending, &mut self.pending);
            pending.push(label_id);
            assert(pending.deep_view() =~= before.push(label_id@));
            self.pending = pending;
            true
        } else {
            false
        }
    }

    /// Empties the queue and gives the label id that was pushed last, if
    /// any was.
    pub fn drain(&mut self) -> (r: Option<String>)
        ensures
            final(self)@ == Seq::<Seq<char>>::empty(),
            final(self).spec_capacity() == old(self).spec_capacity(),
            text_view(r) == drained(old(self)@),
    {
        proof {
            use_type_invariant(&*self);
        }
        let mut pending: Vec<String> = Vec::new();
        core::mem::swap(&mut pending, &mut self.pending);
        assert(self@ =~= Seq::<Seq<char>>::empty());
        pending.pop()
    }
}

/// The order in which a cycle works through the labels `label_ids` when the
/// priority queue gave `priority`.
pub fn processing_order(label_ids: &Vec<String>, priority: &Option<String>) -> (r: Vec<String>)
    ensures
        r.deep_view() == prioritized(label_ids.deep_view(), text_view(*priority)),
{
    let ghost ids = label_ids.deep_view();
    let mut out: Vec<String> = Vec::new();
    match priority {
        Some(p) => {
            if contains_text(label_ids, p) {
                out.push(p.clone());
                let mut i: usize = 0;
                while i < label_ids.len()
                    invariant
                        i <= label_ids.len(),
                        ids == label_ids.deep_view(),
                        out.deep_view() == seq![p@] + ids.take(i as int).filter(other_than(p@)),
                    decreases label_ids.len() - i,
                {
                    let ghost before = out.deep_view();
                    proof {
                        lemma_take_step(ids, i as int);
                        ids.take(i as int).lemma_filter_push(ids[i as int], other_than(p@));
                    }
                    if label_ids[i] != *p {
                        out.push(label_ids[i].clone());
                        assert(out.deep_view() =~= before.push(ids[i as int]));
                        assert(out.deep_view() =~= seq![p@] + ids.take(i + 1).filter(
                            other_than(p@),
                        ));
                    }
                    i += 1;
                }
                assert(ids.take(i as int) =~= ids);
                return out;
            }
        },
        None => {},
    }
    let mut i: usize = 0;
    while i < label_ids.len()
        invariant
            i <= label_ids.len(),
            out.len() == i,
            forall|j: int| 0 <= j < i ==> out[j]@ == label_ids[j]@,
        decreases label_ids.len() - i,
    {
        out.push(label_ids[i].clone());
        i += 1;
    }
    assert(out.deep_view() =~= label_ids.deep_view());
    out
}

/// Of the labels pushed into a queue that has room for them, a drain gives
/// the one that was pushed last, whatever waited before.
pub proof fn lemma_last_push_wins(
    pending: Seq<Seq<char>>,
    capacity: usize,
    first: Seq<char>,
    second: Seq<char>,
)
    requires
        pending.len() + 2 <= capacity,
    ensures
        drained(after_push(after_push(pending, capacity, first), capacity, second)) == Some(second),
        drained(after_push(pending, capacity, second)) == Some(second),
{
}

/// A label of the list that has priority is worked on first, and no label is
/// lost or gained by the reordering.
pub proof fn lemma_prioritized_keeps_labels(ids: Seq<Seq<char>>, priority: Seq<char>)
    requires
        ids.contains(priority),
    ensures
        prioritized(ids, Some(priority))[0] == priority,
        forall|id: Seq<char>| prioritized(ids, Some(priority)).contains(id) <==> ids.contains(id),
{
    let rest = ids.filter(other_than(priority));
    let order = prioritized(ids, Some(priority));
    assert(order == seq![priority] + rest);
    assert(order[0] == priority);
    assert forall|id: Seq<char>| order.contains(id) <==> ids.contains(id) by {
        broadcast use vstd::seq_lib::group_filter_ensures;

        if order.contains(id) {
            let k = choose|k: int| 0 <= k < order.len() && order[k] == id;
            if k > 0 {
                assert(rest[k - 1] == id);
                assert(rest.contains(id));
                ids.lemma_filter_contains_rev(other_than(priority), id);
            }
        }
        if ids.contains(id) {
            if id == priority {
                assert(order[0] == id);
            } else {
                let j = choose|j: int| 0 <= j < ids.len() && ids[j] == id;
                ids.lemma_filter_contains(other_than(priority), j);
                let k = choose|k: int| 0 <= k < rest.len() && rest[k] == id;
                assert(order[k + 1] == id);
            }
        }
    }
}

/// The signal by which the synchronisation tells the interface to read the
/// store again.
#[derive(Debug)]
pub struct RefreshSignal {
    raised: bool,
}

impl View for RefreshSignal {
    type V = bool;

    /// Whether a signal waits to be taken.
    closed spec fn view(&self) -> bool {
        self.raised
    }
}

impl RefreshSignal {
    /// A signal that is not raised.
    pub fn new() -> (r: RefreshSignal)
        ensures
            !r@,
    {
        RefreshSignal { raised: false }
    }

    /// Raises the signal. Raising it again before it is taken changes
    /// nothing.
    pub fn emit(&mut self)
        ensures
            final(self)@,
    {
        self.raised = true;
    }

    /// Takes the signal: says whether it was raised, and lowers it.
    pub fn take(&mut self) -> (r: bool)
        ensures
            r == old(self)@,
            !final(self)@,
    {
        let r = self.raised;
        self.raised = false;
        r
    }
}

} // verus!

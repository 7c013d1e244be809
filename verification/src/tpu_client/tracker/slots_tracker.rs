//! Estimates the cluster's current slot from a noisy stream of slot events.
//!
//! Validators may announce slots far in the future. The estimator anchors on
//! the median of the recent events and accepts only slots within a bounded
//! distance of it, so a few outliers cannot drag the estimate forward.
use crate::Slot;
use std::collections::VecDeque;
use vstd::prelude::*;
use vstd::relations::{sorted_by, total_ordering};
use vstd::seq_lib::{lemma_multiset_commutative, lemma_sorted_unique};

verus! {

/// How far past the expected slot an observed slot may lie and still count.
pub const MAX_SLOT_SKIP_DISTANCE: u64 = 48;

/// How many recent events the tracker keeps.
pub const RECENT_LEADER_SLOTS_CAPACITY: usize = 48;

/// One observation of a slot: its first shred arrived, or it was completed.
#[derive(Debug, Clone, Copy, PartialEq, Eq, Structural)]
pub enum SlotEvent {
    Start(Slot),
    End(Slot),
}

impl SlotEvent {
    /// The slot that the event speaks of.
    pub open spec fn spec_slot(&self) -> Slot {
        match *self {
            SlotEvent::Start(slot) => slot,
            SlotEvent::End(slot) => slot,
        }
    }

    /// Whether the event opens its slot.
    pub open spec fn spec_is_start(&self) -> bool {
        *self is Start
    }

    /// The slot that the event speaks of.
    #[verifier::when_used_as_spec(spec_slot)]
    pub fn slot(&self) -> (slot: Slot)
        ensures
            slot == self.spec_slot(),
    {
        match self {
            SlotEvent::Start(slot) => *slot,
            SlotEvent::End(slot) => *slot,
        }
    }

    /// Whether the event opens its slot.
    #[verifier::when_used_as_spec(spec_is_start)]
    pub fn is_start(&self) -> (start: bool)
        ensures
            start == self.spec_is_start(),
    {
        match self {
            SlotEvent::Start(_) => true,
            SlotEvent::End(_) => false,
        }
    }
}

/// A notification of the upstream slot-update stream, reduced to its kind,
/// its slot and its timestamp.
#[derive(Debug, Clone, Copy, PartialEq, Eq, Structural)]
pub enum SlotUpdate {
    FirstShredReceived { slot: Slot, timestamp: u64 },
    Completed { slot: Slot, timestamp: u64 },
    CreatedBank { slot: Slot, parent: Slot, timestamp: u64 },
    Frozen { slot: Slot, timestamp: u64 },
    Dead { slot: Slot, timestamp: u64 },
    OptimisticConfirmation { slot: Slot, timestamp: u64 },
    Root { slot: Slot, timestamp: u64 },
}

/// The event that a notification stands for; `None` for the kinds that the
/// tracker ignores.
pub open spec fn event_of(update: SlotUpdate) -> Option<SlotEvent> {
    match update {
        SlotUpdate::FirstShredReceived { slot, .. } => Some(SlotEvent::Start(slot)),
        SlotUpdate::Completed { slot, .. } => Some(SlotEvent::End(slot)),
        _ => None,
    }
}

/// The order in which the estimator lays events out: by slot, and within a
/// slot its start before its end.
pub open spec fn event_leq(a: SlotEvent, b: SlotEvent) -> bool {
    a.spec_slot() < b.spec_slot() || (a.spec_slot() == b.spec_slot() && (a.spec_is_start()
        || !b.spec_is_start()))
}

/// `event_leq` as a relation.
pub open spec fn event_order() -> spec_fn(SlotEvent, SlotEvent) -> bool {
    |a: SlotEvent, b: SlotEvent| event_leq(a, b)
}

/// The events in estimator order.
pub open spec fn sorted_events(events: Seq<SlotEvent>) -> Seq<SlotEvent> {
    events.sort_by(event_order())
}

/// The greatest index whose event has a slot of at most `cap`, or -1 if
/// there is none.
pub open spec fn last_within(events: Seq<SlotEvent>, cap: int) -> int
    decreases events.len(),
{
    if events.len() == 0 {
        -1
    } else if events.last().spec_slot() <= cap {
        events.len() - 1
    } else {
        last_within(events.drop_last(), cap)
    }
}

/// The index of the median of a non-empty sequence.
pub open spec fn median_index(events: Seq<SlotEvent>) -> int {
    (events.len() - 1) / 2
}

/// The highest slot that the estimator accepts: the median slot, plus one
/// slot for each event above the median, plus the skip distance.
pub open spec fn slot_cap(sorted: Seq<SlotEvent>) -> int {
    sorted[median_index(sorted)].spec_slot() + (sorted.len() - 1 - median_index(sorted))
        + MAX_SLOT_SKIP_DISTANCE
}

/// The slot that the cluster is in once `event` was seen: a started slot
/// itself, the slot after a completed one.
pub open spec fn event_estimate(event: SlotEvent) -> Slot {
    match event {
        SlotEvent::Start(slot) => slot,
        SlotEvent::End(slot) => if slot == u64::MAX {
            slot
        } else {
            (slot + 1) as u64
        },
    }
}

/// The estimate over events that are already in estimator order.
pub open spec fn estimate_sorted(sorted: Seq<SlotEvent>) -> Slot
    recommends
        sorted.len() > 0,
{
    let found = last_within(sorted, slot_cap(sorted));
    let index = if found >= 0 {
        found
    } else {
        median_index(sorted)
    };
    event_estimate(sorted[index])
}

/// The current slot as estimated from a non-empty ring of recent events.
pub open spec fn estimate(events: Seq<SlotEvent>) -> Slot
    recommends
        events.len() > 0,
{
    estimate_sorted(sorted_events(events))
}

/// The ring after it was cut back to its capacity: its newest events.
pub open spec fn trim_ring(events: Seq<SlotEvent>) -> Seq<SlotEvent> {
    if events.len() > RECENT_LEADER_SLOTS_CAPACITY {
        events.subrange(events.len() - RECENT_LEADER_SLOTS_CAPACITY, events.len() as int)
    } else {
        events
    }
}

/// The estimator's order is a total order on events.
pub proof fn lemma_event_order_total()
    ensures
        total_ordering(event_order()),
{
    let leq = event_order();
    assert forall|a: SlotEvent, b: SlotEvent| #[trigger] leq(a, b) && leq(b, a) implies a == b by {
        assert(event_leq(a, b) && event_leq(b, a));
    }
    assert forall|a: SlotEvent, b: SlotEvent, c: SlotEvent| #[trigger]
        leq(a, b) && #[trigger] leq(b, c) implies leq(a, c) by {
        assert(event_leq(a, b) && event_leq(b, c));
        assert(event_leq(a, c));
    }
    assert forall|a: SlotEvent, b: SlotEvent| #[trigger] leq(a, b) || #[trigger] leq(b, a) by {
        assert(event_leq(a, b) || event_leq(b, a));
    }
    assert forall|a: SlotEvent| #[trigger] leq(a, a) by {
        assert(event_leq(a, a));
    }
}

/// Tells whether `a` comes no later than `b` in estimator order.
fn event_before(a: &SlotEvent, b: &SlotEvent) -> (before: bool)
    ensures
        before == event_leq(*a, *b),
{
    a.slot() < b.slot() || (a.slot() == b.slot() && (a.is_start() || !b.is_start()))
}

/// Puts `event` into `sorted` at the place that keeps the order.
fn insert_sorted(sorted: &mut Vec<SlotEvent>, event: SlotEvent)
    requires
        sorted_by(old(sorted)@, event_order()),
    ensures
        sorted_by(final(sorted)@, event_order()),
        final(sorted)@.to_multiset() == old(sorted)@.to_multiset().insert(event),
        final(sorted)@.len() == old(sorted)@.len() + 1,
{
    let mut place: usize = sorted.len();
    while place > 0 && !event_before(&sorted[place - 1], &event)
        invariant
            place <= sorted.len(),
            sorted@ == old(sorted)@,
            forall|k: int| place <= k < sorted.len() ==> event_leq(event, #[trigger] sorted@[k]),
        decreases place,
    {
        place -= 1;
    }
    proof {
        let before = sorted@.subrange(0, place as int);
        let after = sorted@.subrange(place as int, sorted@.len() as int);
        assert(sorted@ == before + after);
        assert(sorted@.insert(place as int, event) == before.push(event) + after);
        lemma_multiset_commutative(before, after);
        lemma_multiset_commutative(before.push(event), after);
        vstd::seq_lib::to_multiset_build(before, event);
        assert(sorted@.insert(place as int, event).to_multiset() =~= sorted@.to_multiset().insert(
            event,
        ));
        let leq = event_order();
        let grown = sorted@.insert(place as int, event);
        assert forall|i: int, j: int| 0 <= i < j < grown.len() implies #[trigger] leq(
            grown[i],
            grown[j],
        ) by {
            if j < place {
                assert(leq(sorted@[i], sorted@[j]));
            } else if j == place {
                if place > 0 {
                    assert(event_leq(sorted@[place - 1], event));
                    if i < place - 1 {
                        assert(leq(sorted@[i], sorted@[place - 1]));
                    }
                }
            } else if i < place {
                assert(leq(sorted@[i], sorted@[j - 1]));
            } else if i == place {
                assert(event_leq(event, sorted@[j - 1]));
            } else {
                assert(leq(sorted@[i - 1], sorted@[j - 1]));
            }
        }
    }
    sorted.insert(place, event);
}

/// Copies the ring into a list in estimator order.
fn sort_events(ring: &VecDeque<SlotEvent>) -> (sorted: Vec<SlotEvent>)
    ensures
        sorted@ == sorted_events(ring@),
{
    let mut sorted: Vec<SlotEvent> = Vec::new();
    let mut next: usize = 0;
    assert(ring@.subrange(0, 0) == sorted@);
    while next < ring.len()
        invariant
            next <= ring@.len(),
            sorted_by(sorted@, event_order()),
            sorted@.to_multiset() == ring@.subrange(0, next as int).to_multiset(),
        decreases ring@.len() - next,
    {
        let event = ring[next];
        proof {
            let seen = ring@.subrange(0, next as int);
            assert(ring@.subrange(0, next + 1) == seen.push(event));
            vstd::seq_lib::to_multiset_build(seen, event);
        }
        insert_sorted(&mut sorted, event);
        next += 1;
    }
    proof {
        assert(ring@.subrange(0, next as int) == ring@);
        lemma_event_order_total();
        ring@.lemma_sort_by_ensures(event_order());
        lemma_sorted_unique(sorted@, sorted_events(ring@), event_order());
    }
    sorted
}

/// Finds the greatest index whose event has a slot of at most `cap`.
fn find_last_within(sorted: &Vec<SlotEvent>, cap: u64) -> (found: Option<usize>)
    ensures
        match found {
            Some(index) => index == last_within(sorted@, cap as int),
            None => last_within(sorted@, cap as int) == -1,
        },
{
    let mut index: usize = sorted.len();
    assert(sorted@.subrange(0, index as int) == sorted@);
    while index > 0
        invariant
            index <= sorted.len(),
            last_within(sorted@, cap as int) == last_within(
                sorted@.subrange(0, index as int),
                cap as int,
            ),
        decreases index,
    {
        let prefix = Ghost(sorted@.subrange(0, index as int));
        assert(prefix@.last() == sorted@[index - 1]);
        if sorted[index - 1].slot() <= cap {
            return Some(index - 1);
        }
        assert(prefix@.drop_last() == sorted@.subrange(0, index - 1));
        index -= 1;
    }
    None
}

/// The estimate over a non-empty list in estimator order.
fn estimate_from_sorted(sorted: &Vec<SlotEvent>) -> (slot: Slot)
    requires
        sorted@.len() > 0,
    ensures
        slot == estimate_sorted(sorted@),
{
    let max_idx: usize = sorted.len() - 1;
    let median_idx: usize = max_idx / 2;
    let median_slot: Slot = sorted[median_idx].slot();
    let expected_current: u64 = median_slot.saturating_add((max_idx - median_idx) as u64);
    let max_reasonable: u64 = expected_current.saturating_add(MAX_SLOT_SKIP_DISTANCE);
    proof {
        lemma_last_within_saturated(sorted@, slot_cap(sorted@));
        lemma_last_within_bounds(sorted@, max_reasonable as int);
    }
    let idx: usize = match find_last_within(sorted, max_reasonable) {
        Some(found) => found,
        None => median_idx,
    };
    let slot_event = sorted[idx];
    if slot_event.is_start() {
        slot_event.slot()
    } else {
        slot_event.slot().saturating_add(1)
    }
}

/// What `last_within` returns is -1 or an index whose slot is within the cap,
/// and no later index has such a slot.
pub proof fn lemma_last_within_bounds(events: Seq<SlotEvent>, cap: int)
    ensures
        -1 <= last_within(events, cap) < events.len(),
        last_within(events, cap) >= 0 ==> events[last_within(events, cap)].spec_slot() <= cap,
        forall|k: int|
            last_within(events, cap) < k < events.len() ==> (#[trigger] events[k]).spec_slot()
                > cap,
    decreases events.len(),
{
    if events.len() > 0 {
        let shorter = events.drop_last();
        lemma_last_within_bounds(shorter, cap);
        assert forall|k: int| last_within(events, cap) < k < events.len() implies (
        #[trigger] events[k]).spec_slot() > cap by {
            if k < shorter.len() {
                assert(shorter[k] == events[k]);
            }
        }
    }
}

/// The cap always admits the median itself, so the estimate is taken from
/// the median or from an event after it.
pub proof fn lemma_cap_admits_median(sorted: Seq<SlotEvent>)
    requires
        sorted.len() > 0,
    ensures
        median_index(sorted) <= last_within(sorted, slot_cap(sorted)) < sorted.len(),
{
    lemma_last_within_bounds(sorted, slot_cap(sorted));
}

/// A cap beyond the largest slot accepts the same events as the largest slot.
proof fn lemma_last_within_saturated(events: Seq<SlotEvent>, cap: int)
    ensures
        cap >= u64::MAX ==> last_within(events, cap) == last_within(events, u64::MAX as int),
    decreases events.len(),
{
    if events.len() > 0 {
        lemma_last_within_saturated(events.drop_last(), cap);
    }
}

/// The place of an event in estimator order, as a number: twice its slot,
/// and one more for an end.
pub open spec fn event_rank(event: SlotEvent) -> int {
    2 * event.spec_slot() + if event.spec_is_start() {
        0int
    } else {
        1int
    }
}

/// Whether `next` is the event that a gapless stream brings after `event`:
/// the end of a started slot, or the start of the slot after a completed one.
pub open spec fn follows(event: SlotEvent, next: SlotEvent) -> bool {
    match event {
        SlotEvent::Start(slot) => next == SlotEvent::End(slot),
        SlotEvent::End(slot) => slot < u64::MAX && next == SlotEvent::Start((slot + 1) as u64),
    }
}

/// A stream without gaps or repeats: each event follows the one before it.
pub open spec fn contiguous(events: Seq<SlotEvent>) -> bool {
    forall|i: int| 0 <= i < events.len() - 1 ==> follows(events[i], #[trigger] events[i + 1])
}

/// In a contiguous stream each event's rank is one more than that of the
/// event before it.
proof fn lemma_contiguous_ranks(events: Seq<SlotEvent>, i: int)
    requires
        contiguous(events),
        0 <= i < events.len(),
    ensures
        event_rank(events[i]) == event_rank(events[0]) + i,
    decreases i,
{
    if i > 0 {
        lemma_contiguous_ranks(events, i - 1);
        assert(follows(events[i - 1], events[i - 1 + 1]));
    }
}

/// A contiguous stream is in estimator order already.
proof fn lemma_contiguous_sorted(events: Seq<SlotEvent>)
    requires
        contiguous(events),
    ensures
        sorted_events(events) == events,
{
    let leq = event_order();
    assert forall|i: int, j: int| 0 <= i < j < events.len() implies #[trigger] leq(
        events[i],
        events[j],
    ) by {
        lemma_contiguous_ranks(events, i);
        lemma_contiguous_ranks(events, j);
    }
    lemma_event_order_total();
    events.lemma_sort_by_ensures(leq);
    lemma_sorted_unique(events, sorted_events(events), leq);
}

/// On a contiguous stream the estimate goes by the newest event alone.
pub proof fn lemma_contiguous_estimate(events: Seq<SlotEvent>)
    requires
        events.len() > 0,
        contiguous(events),
    ensures
        estimate(events) == event_estimate(events.last()),
{
    lemma_contiguous_sorted(events);
    let last = events.len() - 1;
    let median = median_index(events);
    lemma_contiguous_ranks(events, last);
    lemma_contiguous_ranks(events, median);
    assert(events.last().spec_slot() <= slot_cap(events));
}

/// The current slot never goes back while the tracker is fed a contiguous
/// stream: if the ring and the event recorded next form a stream in which
/// each event follows the one before it, the estimate after the record is
/// at least the estimate before it.
pub proof fn lemma_record_monotonic(events: Seq<SlotEvent>, event: SlotEvent)
    requires
        events.len() > 0,
        contiguous(events.push(event)),
    ensures
        estimate(trim_ring(events.push(event))) >= estimate(events),
{
    let pushed = events.push(event);
    let ring = trim_ring(pushed);
    let shift = pushed.len() - ring.len();
    assert forall|i: int| 0 <= i < events.len() - 1 implies follows(
        events[i],
        #[trigger] events[i + 1],
    ) by {
        assert(follows(pushed[i], pushed[i + 1]));
    }
    assert forall|i: int| 0 <= i < ring.len() - 1 implies follows(
        ring[i],
        #[trigger] ring[i + 1],
    ) by {
        assert(follows(pushed[i + shift], pushed[i + shift + 1]));
    }
    lemma_contiguous_estimate(events);
    lemma_contiguous_estimate(ring);
    assert(follows(pushed[events.len() - 1], pushed[events.len() - 1 + 1]));
}

/// Far-future slots cannot raise the estimate: whatever the ring holds, the
/// estimate is at most one slot past the cap that the median sets.
pub proof fn lemma_estimate_capped(events: Seq<SlotEvent>)
    requires
        events.len() > 0,
    ensures
        estimate(events) <= slot_cap(sorted_events(events)) + 1,
{
    let sorted = sorted_events(events);
    lemma_event_order_total();
    events.lemma_sort_by_ensures(event_order());
    vstd::seq_lib::to_multiset_len(events);
    vstd::seq_lib::to_multiset_len(sorted);
    lemma_last_within_bounds(sorted, slot_cap(sorted));
}

/// The estimate over a non-empty ring.
fn estimate_ring(ring: &VecDeque<SlotEvent>) -> (slot: Slot)
    requires
        ring@.len() > 0,
    ensures
        slot == estimate(ring@),
{
    let sorted = sort_events(ring);
    proof {
        lemma_event_order_total();
        ring@.lemma_sort_by_ensures(event_order());
        vstd::seq_lib::to_multiset_len(ring@);
        vstd::seq_lib::to_multiset_len(sorted@);
    }
    estimate_from_sorted(&sorted)
}

/// Keeps the most recent slot events and the slot estimated from them.
#[derive(Debug)]
pub struct SlotsTracker {
    recent_events: VecDeque<SlotEvent>,
    current_slot: Slot,
}

impl SlotsTracker {
    /// The recent events, oldest first.
    pub closed spec fn events(&self) -> Seq<SlotEvent> {
        self.recent_events@
    }

    /// The cached estimate.
    pub closed spec fn spec_current_slot(&self) -> Slot {
        self.current_slot
    }

    /// The ring holds no more than its capacity, and once it holds an event
    /// the cached slot is the estimate over it.
    pub open spec fn well_formed(&self) -> bool {
        &&& self.events().len() <= RECENT_LEADER_SLOTS_CAPACITY
        &&& self.events().len() > 0 ==> self.spec_current_slot() == estimate(self.events())
    }

    /// Holds of every tracker.
    #[verifier::type_invariant]
    spec fn ring_invariant(&self) -> bool {
        self.well_formed()
    }

    /// A tracker that has seen no event; its current slot is 0.
    pub fn new() -> (tracker: Self)
        ensures
            tracker.events() == Seq::<SlotEvent>::empty(),
            tracker.spec_current_slot() == 0,
            tracker.well_formed(),
    {
        Self {
            recent_events: VecDeque::with_capacity(RECENT_LEADER_SLOTS_CAPACITY),
            current_slot: 0,
        }
    }

    /// The cached estimate of the cluster's current slot.
    #[verifier::when_used_as_spec(spec_current_slot)]
    pub fn current_slot(&self) -> (slot: Slot)
        ensures
            slot == self.spec_current_slot(),
            self.well_formed(),
    {
        proof {
            use_type_invariant(self);
        }
        self.current_slot
    }

    /// Records a slot notification and returns the new estimate, or `None`
    /// for a notification of a kind that the tracker ignores.
    pub fn record(&mut self, slot_event: SlotUpdate) -> (result: Option<Slot>)
        ensures
            final(self).well_formed(),
            match event_of(slot_event) {
                None => {
                    &&& result is None
                    &&& final(self).events() == old(self).events()
                    &&& final(self).spec_current_slot() == old(self).spec_current_slot()
                },
                Some(event) => {
                    &&& final(self).events() == trim_ring(old(self).events().push(event))
                    &&& final(self).spec_current_slot() == estimate(final(self).events())
                    &&& result == Some(final(self).spec_current_slot())
                },
            },
    {
        proof {
            use_type_invariant(&*self);
        }
        let event = match slot_event {
            SlotUpdate::FirstShredReceived { slot, .. } => SlotEvent::Start(slot),
            SlotUpdate::Completed { slot, .. } => SlotEvent::End(slot),
            _ => {
                return None;
            },
        };
        let mut ring: VecDeque<SlotEvent> = VecDeque::new();
        std::mem::swap(&mut self.recent_events, &mut ring);
        ring.push_back(event);
        let ghost pushed = ring@;
        while ring.len() > RECENT_LEADER_SLOTS_CAPACITY
            invariant
                0 < ring@.len() <= pushed.len(),
                ring@.len() >= RECENT_LEADER_SLOTS_CAPACITY || ring@.len() == pushed.len(),
                ring@ == pushed.subrange(pushed.len() - ring@.len(), pushed.len() as int),
            decreases ring@.len(),
        {
            ring.pop_front();
        }
        assert(pushed.subrange(0, pushed.len() as int) == pushed);
        let slot = estimate_ring(&ring);
        self.current_slot = slot;
        self.recent_events = ring;
        Some(slot)
    }

    /// The estimate over the ring as it stands; the cached slot while the
    /// ring is empty.
    pub fn estimate_current_slot(&self) -> (slot: Slot)
        ensures
            slot == if self.events().len() == 0 {
                self.spec_current_slot()
            } else {
                estimate(self.events())
            },
            slot == self.spec_current_slot(),
    {
        proof {
            use_type_invariant(self);
        }
        if self.recent_events.len() == 0 {
            return self.current_slot;
        }
        estimate_ring(&self.recent_events)
    }
}

impl Default for SlotsTracker {
    /// A tracker that has seen no event.
    fn default() -> (tracker: Self)
        ensures
            tracker.events() == Seq::<SlotEvent>::empty(),
            tracker.spec_current_slot() == 0,
    {
        Self::new()
    }
}

} // verus!

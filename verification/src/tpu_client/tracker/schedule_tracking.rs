//! Holds the leader schedule of the current and the next epoch, and moves
//! from one epoch to the next.
use crate::error::{FetchError, InitError};
use std::collections::HashMap;
use vstd::prelude::*;

verus! {

broadcast use vstd::std_specs::hash::group_hash_axioms;

/// What a schedule tracker holds, as plain mathematics: the first slot of the
/// current and of the next epoch, the length of an epoch, and for each of the
/// two epochs the identity that leads each slot index.
pub struct ScheduleView {
    pub curr_start: u64,
    pub next_start: u64,
    pub slots_in_epoch: u64,
    pub curr_map: Map<usize, Seq<char>>,
    pub next_map: Map<usize, Seq<char>>,
}

impl ScheduleView {
    /// The next epoch begins where the current one ends, an epoch has
    /// slots, and both schedules name at least one leader.
    pub open spec fn well_formed(self) -> bool {
        &&& self.slots_in_epoch > 0
        &&& self.next_start == self.curr_start + self.slots_in_epoch
        &&& !self.curr_map.is_empty()
        &&& !self.next_map.is_empty()
    }

    /// Every slot index that either schedule names lies within the epoch.
    pub open spec fn indices_in_epoch(self) -> bool {
        &&& forall|index: usize|
            self.curr_map.contains_key(index) ==> index < self.slots_in_epoch
        &&& forall|index: usize|
            self.next_map.contains_key(index) ==> index < self.slots_in_epoch
    }

    /// The place of `slot` within the current epoch, if it lies in it.
    pub open spec fn slot_to_index(self, slot: u64) -> Option<usize> {
        if self.curr_start <= slot < self.next_start {
            Some((slot - self.curr_start) as usize)
        } else {
            None
        }
    }

    /// The identity that leads slot index `index` of the current epoch.
    pub open spec fn leader_for(self, index: usize) -> Option<Seq<char>> {
        if self.curr_map.contains_key(index) {
            Some(self.curr_map[index])
        } else {
            None
        }
    }
}

/// A schedule as identities: each leader's name as its characters.
pub open spec fn identities(schedule: Map<usize, String>) -> Map<usize, Seq<char>> {
    schedule.map_values(|identity: String| identity@)
}

/// What the cluster reports of the epoch it is in.
#[derive(Debug, Clone, Copy, PartialEq, Eq, Structural)]
pub struct EpochInfo {
    pub absolute_slot: u64,
    pub slot_index: u64,
    pub slots_in_epoch: u64,
}

/// The reply to a request for an epoch's leader schedule.
#[derive(Debug)]
pub enum ScheduleReply {
    /// The request failed.
    Failed,
    /// The cluster holds no schedule for the epoch.
    Unavailable,
    /// Each leader's identity with the slot indices that it leads.
    Schedule(Vec<(String, Vec<usize>)>),
}

/// The first slot of the epoch that `info` lies in and of the epoch after
/// it, or the reason why `info` cannot be right.
pub open spec fn epoch_bounds_of(info: Option<EpochInfo>) -> Result<(u64, u64), InitError> {
    match info {
        None => Err(InitError::EpochInfoUnavailable),
        Some(info) => if info.slots_in_epoch == 0 {
            Err(InitError::InvalidSlotsInEpoch)
        } else if info.slot_index >= info.slots_in_epoch {
            Err(InitError::SlotIndexOutOfRange)
        } else if info.slot_index > info.absolute_slot || info.absolute_slot - info.slot_index
            + info.slots_in_epoch > u64::MAX {
            Err(InitError::EpochOutOfRange)
        } else {
            Ok(
                (
                    (info.absolute_slot - info.slot_index) as u64,
                    (info.absolute_slot - info.slot_index + info.slots_in_epoch) as u64,
                ),
            )
        },
    }
}

/// A schedule after `identity` was put at each of `indices`, the last first
/// to be overwritten.
pub open spec fn assign_all(
    schedule: Map<usize, Seq<char>>,
    identity: Seq<char>,
    indices: Seq<usize>,
) -> Map<usize, Seq<char>>
    decreases indices.len(),
{
    if indices.len() == 0 {
        schedule
    } else {
        assign_all(schedule, identity, indices.drop_last()).insert(indices.last(), identity)
    }
}

/// The schedule by slot index that a reply by leader stands for. Where two
/// entries claim one slot index, the later entry has it.
pub open spec fn inverted(entries: Seq<(Seq<char>, Seq<usize>)>) -> Map<usize, Seq<char>>
    decreases entries.len(),
{
    if entries.len() == 0 {
        Map::empty()
    } else {
        assign_all(inverted(entries.drop_last()), entries.last().0, entries.last().1)
    }
}

/// Whether the entry at `place` lists `index`.
pub open spec fn entry_lists(entries: Seq<(Seq<char>, Seq<usize>)>, place: int, index: usize) -> bool {
    0 <= place < entries.len() && entries[place].1.contains(index)
}

/// Putting an identity at some indices changes the schedule at those indices
/// alone.
pub proof fn lemma_assign_all(
    schedule: Map<usize, Seq<char>>,
    identity: Seq<char>,
    indices: Seq<usize>,
    index: usize,
)
    ensures
        assign_all(schedule, identity, indices).contains_key(index) <==> schedule.contains_key(
            index,
        ) || indices.contains(index),
        indices.contains(index) ==> assign_all(schedule, identity, indices)[index] == identity,
        !indices.contains(index) ==> assign_all(schedule, identity, indices)[index]
            == schedule[index],
    decreases indices.len(),
{
    if indices.len() > 0 {
        let shorter = indices.drop_last();
        lemma_assign_all(schedule, identity, shorter, index);
        if indices.contains(index) {
            let place = choose|i: int| 0 <= i < indices.len() && indices[i] == index;
            if place < shorter.len() {
                assert(shorter[place] == index);
            }
        } else if shorter.contains(index) {
            let place = choose|i: int| 0 <= i < shorter.len() && shorter[i] == index;
            assert(indices[place] == index);
        }
        if indices.last() == index {
            assert(indices[indices.len() - 1] == index);
        }
    }
}

/// The inverted schedule has a leader for exactly the slot indices that
/// some entry lists, and the leader of an index is an identity whose entry
/// lists it.
pub proof fn lemma_inverted_lists(entries: Seq<(Seq<char>, Seq<usize>)>, index: usize)
    ensures
        inverted(entries).contains_key(index) <==> exists|place: int| #[trigger]
            entry_lists(entries, place, index),
        inverted(entries).contains_key(index) ==> exists|place: int| #[trigger]
            entry_lists(entries, place, index) && inverted(entries)[index] == entries[place].0,
    decreases entries.len(),
{
    if entries.len() > 0 {
        let shorter = entries.drop_last();
        let last = entries.len() - 1;
        lemma_inverted_lists(shorter, index);
        lemma_assign_all(inverted(shorter), entries.last().0, entries.last().1, index);
        if entries.last().1.contains(index) {
            assert(entry_lists(entries, last, index));
        } else if inverted(shorter).contains_key(index) {
            let place = choose|place: int| #[trigger]
                entry_lists(shorter, place, index) && inverted(shorter)[index] == shorter[place].0;
            assert(entry_lists(entries, place, index));
        }
        if exists|place: int| #[trigger] entry_lists(entries, place, index) {
            let place = choose|place: int| #[trigger] entry_lists(entries, place, index);
            if place < last {
                assert(entry_lists(shorter, place, index));
            }
        }
    }
}

/// A reply's entries as plain values.
pub open spec fn entry_model(entries: Seq<(String, Vec<usize>)>) -> Seq<(Seq<char>, Seq<usize>)> {
    Seq::new(entries.len(), |i: int| (entries[i].0@, entries[i].1@))
}

/// The schedule that a reply gives, or the reason why it gives none.
pub open spec fn fetched_schedule(reply: ScheduleReply) -> Result<
    Map<usize, Seq<char>>,
    FetchError,
> {
    match reply {
        ScheduleReply::Failed => Err(FetchError::RpcFailed),
        ScheduleReply::Unavailable => Err(FetchError::NoSchedule),
        ScheduleReply::Schedule(entries) => {
            let schedule = inverted(entry_model(entries@));
            if schedule.is_empty() {
                Err(FetchError::EmptySchedule)
            } else {
                Ok(schedule)
            }
        },
    }
}

/// The tracker that the cluster's three replies give, or the first reason
/// why they give none.
pub open spec fn initial_schedule(
    info: Option<EpochInfo>,
    curr_reply: ScheduleReply,
    next_reply: ScheduleReply,
) -> Result<ScheduleView, InitError> {
    match epoch_bounds_of(info) {
        Err(error) => Err(error),
        Ok((curr_start, next_start)) => match fetched_schedule(curr_reply) {
            Err(error) => Err(InitError::CurrentSchedule(error)),
            Ok(curr_map) => match fetched_schedule(next_reply) {
                Err(error) => Err(InitError::NextSchedule(error)),
                Ok(next_map) => Ok(
                    ScheduleView {
                        curr_start,
                        next_start,
                        slots_in_epoch: info->Some_0.slots_in_epoch,
                        curr_map,
                        next_map,
                    },
                ),
            },
        },
    }
}

impl ScheduleView {
    /// The first slot of the epoch whose schedule a rotation at
    /// `current_slot` needs; `None` while `current_slot` lies before the next
    /// epoch, and where that epoch would begin past the last slot.
    pub open spec fn rotation_target(self, current_slot: u64) -> Option<u64> {
        if current_slot >= self.next_start && self.next_start + self.slots_in_epoch <= u64::MAX {
            Some((self.next_start + self.slots_in_epoch) as u64)
        } else {
            None
        }
    }

    /// The tracker one epoch on, with `next_map` as the schedule of the
    /// epoch after.
    pub open spec fn shifted(self, next_map: Map<usize, Seq<char>>) -> ScheduleView {
        ScheduleView {
            curr_start: self.next_start,
            next_start: (self.next_start + self.slots_in_epoch) as u64,
            slots_in_epoch: self.slots_in_epoch,
            curr_map: self.next_map,
            next_map,
        }
    }

    /// What a call of `maybe_rotate` returns and leaves behind.
    pub open spec fn rotated(self, current_slot: u64, reply: ScheduleReply) -> (
        Result<bool, FetchError>,
        ScheduleView,
    ) {
        if current_slot < self.next_start {
            (Ok(false), self)
        } else if self.next_start + self.slots_in_epoch > u64::MAX {
            (Err(FetchError::SlotOutOfRange), self)
        } else {
            match fetched_schedule(reply) {
                Err(error) => (Err(error), self),
                Ok(next_map) => (Ok(true), self.shifted(next_map)),
            }
        }
    }
}

/// What the three replies give is a well-formed tracker.
pub proof fn lemma_initial_schedule_well_formed(
    info: Option<EpochInfo>,
    curr_reply: ScheduleReply,
    next_reply: ScheduleReply,
)
    ensures
        initial_schedule(info, curr_reply, next_reply) matches Ok(view) ==> view.well_formed(),
{
}

/// A reply whose schedule names no leader gives no tracker, whichever of the
/// two epochs it is for.
pub proof fn lemma_empty_schedule_rejected(
    info: Option<EpochInfo>,
    curr_reply: ScheduleReply,
    next_reply: ScheduleReply,
)
    requires
        fetched_schedule(curr_reply) == Err::<Map<usize, Seq<char>>, _>(FetchError::EmptySchedule)
            || fetched_schedule(next_reply) == Err::<Map<usize, Seq<char>>, _>(
            FetchError::EmptySchedule,
        ),
    ensures
        initial_schedule(info, curr_reply, next_reply) is Err,
{
}

/// Whether a reply lists slot indices below `bound` only.
pub open spec fn reply_within(reply: ScheduleReply, bound: u64) -> bool {
    reply matches ScheduleReply::Schedule(entries) ==> forall|place: int, index: usize| #[trigger]
        entry_lists(entry_model(entries@), place, index) ==> index < bound
}

/// The schedule of a reply that lists slot indices below `bound` only names
/// leaders for slot indices below `bound` only.
pub proof fn lemma_fetched_within(reply: ScheduleReply, bound: u64)
    requires
        reply_within(reply, bound),
    ensures
        fetched_schedule(reply) matches Ok(schedule) ==> forall|index: usize|
            schedule.contains_key(index) ==> index < bound,
{
    if let ScheduleReply::Schedule(entries) = reply {
        let schedule = inverted(entry_model(entries@));
        assert forall|index: usize| schedule.contains_key(index) implies index < bound by {
            lemma_inverted_lists(entry_model(entries@), index);
        }
    }
}

/// Replies that list slot indices of the epoch only give a tracker whose
/// schedules name slot indices of the epoch only.
pub proof fn lemma_initial_indices_in_epoch(
    info: Option<EpochInfo>,
    curr_reply: ScheduleReply,
    next_reply: ScheduleReply,
)
    requires
        info matches Some(report) && reply_within(curr_reply, report.slots_in_epoch)
            && reply_within(next_reply, report.slots_in_epoch),
    ensures
        initial_schedule(info, curr_reply, next_reply) matches Ok(view) ==> view.indices_in_epoch(),
{
    lemma_fetched_within(curr_reply, info->Some_0.slots_in_epoch);
    lemma_fetched_within(next_reply, info->Some_0.slots_in_epoch);
}

/// A rotation with a reply that lists slot indices of the epoch only keeps
/// the schedules to slot indices of the epoch.
pub proof fn lemma_rotation_keeps_indices(
    view: ScheduleView,
    current_slot: u64,
    reply: ScheduleReply,
)
    requires
        view.indices_in_epoch(),
        reply_within(reply, view.slots_in_epoch),
    ensures
        view.rotated(current_slot, reply).1.indices_in_epoch(),
{
    lemma_fetched_within(reply, view.slots_in_epoch);
}

/// The first slot of the current epoch has index 0, and the first slot of
/// the next epoch has none.
pub proof fn lemma_epoch_edges(view: ScheduleView)
    requires
        view.well_formed(),
    ensures
        view.slot_to_index(view.curr_start) == Some(0usize),
        view.slot_to_index(view.next_start) is None,
{
}

/// A rotation keeps a well-formed tracker well-formed, whether it shifts,
/// declines or fails.
pub proof fn lemma_rotation_keeps_well_formed(
    view: ScheduleView,
    current_slot: u64,
    reply: ScheduleReply,
)
    requires
        view.well_formed(),
    ensures
        view.rotated(current_slot, reply).1.well_formed(),
{
}

/// After a rotation that did not fail, the current epoch holds the slot that
/// it was called with, provided that the slot lay in the current epoch or
/// in the next one before the call.
pub proof fn lemma_rotation_covers_slot(view: ScheduleView, current_slot: u64, reply: ScheduleReply)
    requires
        view.well_formed(),
        view.curr_start <= current_slot < view.next_start + view.slots_in_epoch,
        view.rotated(current_slot, reply).0 is Ok,
    ensures
        view.rotated(current_slot, reply).1.curr_start <= current_slot < view.rotated(
            current_slot,
            reply,
        ).1.next_start,
{
}

/// A rotation at a slot of the current epoch returns `false` and changes
/// nothing, however often it is called and whatever reply it is given.
pub proof fn lemma_rotation_idempotent(
    view: ScheduleView,
    current_slot: u64,
    first_reply: ScheduleReply,
    second_reply: ScheduleReply,
)
    requires
        current_slot < view.next_start,
    ensures
        view.rotated(current_slot, first_reply) == (Ok::<bool, FetchError>(false), view),
        view.rotated(current_slot, first_reply).1.rotated(current_slot, second_reply) == (
            Ok::<bool, FetchError>(false),
            view,
        ),
{
}

/// After a shift the current epoch's leaders are those that the next epoch
/// had before it.
pub proof fn lemma_rotation_promotes_next(
    view: ScheduleView,
    current_slot: u64,
    reply: ScheduleReply,
    index: usize,
)
    requires
        view.rotated(current_slot, reply).0 == Ok::<bool, FetchError>(true),
    ensures
        view.rotated(current_slot, reply).1.leader_for(index) == if view.next_map.contains_key(
            index,
        ) {
            Some(view.next_map[index])
        } else {
            None
        },
        view.rotated(current_slot, reply).1.curr_start == view.next_start,
        view.rotated(current_slot, reply).1.next_start == view.next_start + view.slots_in_epoch,
{
}

/// Putting a leader into a schedule puts its identity into the schedule's
/// identities.
proof fn lemma_identities_insert(schedule: Map<usize, String>, index: usize, identity: String)
    ensures
        identities(schedule.insert(index, identity)) == identities(schedule).insert(
            index,
            identity@,
        ),
{
    assert(identities(schedule.insert(index, identity)) =~= identities(schedule).insert(
        index,
        identity@,
    ));
}

/// Inverts a reply by leader into a schedule by slot index.
fn invert_schedule(entries: &Vec<(String, Vec<usize>)>) -> (schedule: HashMap<usize, String>)
    ensures
        identities(schedule@) == inverted(entry_model(entries@)),
{
    let ghost model = entry_model(entries@);
    let mut schedule: HashMap<usize, String> = HashMap::new();
    let mut entry: usize = 0;
    assert(identities(schedule@) =~= inverted(model.subrange(0, 0)));
    while entry < entries.len()
        invariant
            entry <= entries.len(),
            model == entry_model(entries@),
            identities(schedule@) == inverted(model.subrange(0, entry as int)),
        decreases entries.len() - entry,
    {
        let pubkey = &entries[entry].0;
        let slot_indices = &entries[entry].1;
        let ghost before = identities(schedule@);
        let mut place: usize = 0;
        assert(slot_indices@.subrange(0, 0) =~= Seq::<usize>::empty());
        while place < slot_indices.len()
            invariant
                place <= slot_indices.len(),
                identities(schedule@) == assign_all(
                    before,
                    pubkey@,
                    slot_indices@.subrange(0, place as int),
                ),
            decreases slot_indices.len() - place,
        {
            let slot_index = slot_indices[place];
            let identity = pubkey.clone();
            proof {
                lemma_identities_insert(schedule@, slot_index, identity);
                let taken = slot_indices@.subrange(0, place + 1);
                assert(taken.drop_last() == slot_indices@.subrange(0, place as int));
            }
            schedule.insert(slot_index, identity);
            place += 1;
        }
        proof {
            assert(slot_indices@.subrange(0, place as int) == slot_indices@);
            let taken = model.subrange(0, entry + 1);
            assert(taken.drop_last() == model.subrange(0, entry as int));
            assert(taken.last() == (pubkey@, slot_indices@));
        }
        entry += 1;
    }
    assert(model.subrange(0, entry as int) == model);
    schedule
}

/// Tracks the epoch that the cluster is in and the one after it.
#[derive(Debug)]
pub struct ScheduleTracker {
    curr_epoch_slot_start: u64,
    next_epoch_slot_start: u64,
    /// Maps slot index within epoch -> validator pubkey
    curr_schedule: HashMap<usize, String>,
    next_schedule: HashMap<usize, String>,
    slots_in_epoch: u64,
}

impl View for ScheduleTracker {
    type V = ScheduleView;

    closed spec fn view(&self) -> ScheduleView {
        ScheduleView {
            curr_start: self.curr_epoch_slot_start,
            next_start: self.next_epoch_slot_start,
            slots_in_epoch: self.slots_in_epoch,
            curr_map: identities(self.curr_schedule@),
            next_map: identities(self.next_schedule@),
        }
    }
}

impl ScheduleTracker {
    /// A tracker made of the given parts, taken as they are.
    pub fn from_parts(
        curr_epoch_slot_start: u64,
        next_epoch_slot_start: u64,
        curr_schedule: HashMap<usize, String>,
        next_schedule: HashMap<usize, String>,
        slots_in_epoch: u64,
    ) -> (tracker: Self)
        ensures
            tracker@ == (ScheduleView {
                curr_start: curr_epoch_slot_start,
                next_start: next_epoch_slot_start,
                slots_in_epoch,
                curr_map: identities(curr_schedule@),
                next_map: identities(next_schedule@),
            }),
    {
        Self {
            curr_epoch_slot_start,
            next_epoch_slot_start,
            curr_schedule,
            next_schedule,
            slots_in_epoch,
        }
    }

    /// The first slot of the epoch that the cluster reports and of the epoch
    /// after it: the two slots whose schedules a new tracker needs.
    pub fn epoch_bounds(epoch_info: Option<EpochInfo>) -> (bounds: Result<(u64, u64), InitError>)
        ensures
            bounds == epoch_bounds_of(epoch_info),
    {
        let info = match epoch_info {
            Some(info) => info,
            None => {
                return Err(InitError::EpochInfoUnavailable);
            },
        };
        if info.slots_in_epoch == 0 {
            return Err(InitError::InvalidSlotsInEpoch);
        }
        if info.slot_index >= info.slots_in_epoch {
            return Err(InitError::SlotIndexOutOfRange);
        }
        if info.slot_index > info.absolute_slot {
            return Err(InitError::EpochOutOfRange);
        }
        let curr_epoch_slot_start = info.absolute_slot - info.slot_index;
        match curr_epoch_slot_start.checked_add(info.slots_in_epoch) {
            Some(next_epoch_slot_start) => Ok((curr_epoch_slot_start, next_epoch_slot_start)),
            None => Err(InitError::EpochOutOfRange),
        }
    }

    /// Turns the reply to a request for a leader schedule into a schedule by
    /// slot index. A reply that names no leader is refused.
    pub fn fetch_schedule(reply: ScheduleReply) -> (result: Result<
        HashMap<usize, String>,
        FetchError,
    >)
        ensures
            match result {
                Ok(schedule) => fetched_schedule(reply) == Ok::<_, FetchError>(
                    identities(schedule@),
                ),
                Err(error) => fetched_schedule(reply) == Err::<Map<usize, Seq<char>>, _>(error),
            },
    {
        match reply {
            ScheduleReply::Failed => Err(FetchError::RpcFailed),
            ScheduleReply::Unavailable => Err(FetchError::NoSchedule),
            ScheduleReply::Schedule(entries) => {
                let schedule = invert_schedule(&entries);
                if schedule.is_empty() {
                    Err(FetchError::EmptySchedule)
                } else {
                    Ok(schedule)
                }
            },
        }
    }

    /// Creates a tracker from the cluster's report of its epoch and the
    /// schedules of that epoch and of the next.
    ///
    /// Fails if the report is missing or cannot be right, or if either
    /// schedule is missing or names no leader.
    pub fn new(
        epoch_info: Option<EpochInfo>,
        curr_reply: ScheduleReply,
        next_reply: ScheduleReply,
    ) -> (result: Result<Self, InitError>)
        ensures
            match result {
                Ok(tracker) => initial_schedule(epoch_info, curr_reply, next_reply) == Ok::<
                    _,
                    InitError,
                >(tracker@) && tracker@.well_formed(),
                Err(error) => initial_schedule(epoch_info, curr_reply, next_reply) == Err::<
                    ScheduleView,
                    _,
                >(error),
            },
    {
        let (curr_epoch_slot_start, next_epoch_slot_start) = match Self::epoch_bounds(epoch_info) {
            Ok(bounds) => bounds,
            Err(error) => {
                return Err(error);
            },
        };
        let curr_schedule = match Self::fetch_schedule(curr_reply) {
            Ok(schedule) => schedule,
            Err(error) => {
                return Err(InitError::CurrentSchedule(error));
            },
        };
        let next_schedule = match Self::fetch_schedule(next_reply) {
            Ok(schedule) => schedule,
            Err(error) => {
                return Err(InitError::NextSchedule(error));
            },
        };
        let slots_in_epoch = match epoch_info {
            Some(info) => info.slots_in_epoch,
            None => 0,
        };
        Ok(
            Self {
                curr_epoch_slot_start,
                next_epoch_slot_start,
                curr_schedule,
                next_schedule,
                slots_in_epoch,
            },
        )
    }

    /// The identity that leads `slot_index` in the current epoch.
    pub fn get_leader_for_slot_index(&self, slot_index: usize) -> (leader: Option<&str>)
        ensures
            match leader {
                Some(identity) => self@.leader_for(slot_index) == Some(identity@),
                None => self@.leader_for(slot_index) is None,
            },
    {
        match self.curr_schedule.get(&slot_index) {
            Some(identity) => Some(identity.as_str()),
            None => None,
        }
    }

    /// The first slot of the current epoch.
    pub fn current_epoch_slot_start(&self) -> (slot: u64)
        ensures
            slot == self@.curr_start,
    {
        self.curr_epoch_slot_start
    }

    /// The first slot of the next epoch.
    pub fn next_epoch_slot_start(&self) -> (slot: u64)
        ensures
            slot == self@.next_start,
    {
        self.next_epoch_slot_start
    }

    /// The number of slots in an epoch.
    pub fn slots_in_epoch(&self) -> (slots: u64)
        ensures
            slots == self@.slots_in_epoch,
    {
        self.slots_in_epoch
    }

    /// The first slot of the epoch whose schedule a rotation at
    /// `current_slot` needs, if one is due.
    pub fn rotation_target(&self, current_slot: u64) -> (target: Option<u64>)
        ensures
            target == self@.rotation_target(current_slot),
    {
        if current_slot < self.next_epoch_slot_start {
            return None;
        }
        self.next_epoch_slot_start.checked_add(self.slots_in_epoch)
    }

    /// Moves to the next epoch if `current_slot` has reached it, with
    /// `reply` as the cluster's answer for the epoch after.
    ///
    /// Returns `false`, and changes nothing, while `current_slot` lies before
    /// the next epoch. Otherwise shifts by exactly one epoch: the next
    /// epoch becomes the current one, and the schedule in `reply` becomes
    /// the next. If `reply` gives no schedule the call fails and the tracker
    /// stays as it was, so that the next schedule is never left empty; the
    /// caller calls again with a new reply.
    pub fn maybe_rotate(&mut self, current_slot: u64, reply: ScheduleReply) -> (result: Result<
        bool,
        FetchError,
    >)
        ensures
            (result, final(self)@) == old(self)@.rotated(current_slot, reply),
    {
        if current_slot < self.next_epoch_slot_start {
            return Ok(false);
        }
        let following_start = match self.next_epoch_slot_start.checked_add(self.slots_in_epoch) {
            Some(slot) => slot,
            None => {
                return Err(FetchError::SlotOutOfRange);
            },
        };
        let mut fetched = match Self::fetch_schedule(reply) {
            Ok(schedule) => schedule,
            Err(error) => {
                return Err(error);
            },
        };
        self.curr_epoch_slot_start = self.next_epoch_slot_start;
        self.next_epoch_slot_start = following_start;
        std::mem::swap(&mut self.curr_schedule, &mut self.next_schedule);
        std::mem::swap(&mut self.next_schedule, &mut fetched);
        Ok(true)
    }

    /// Converts an absolute slot number to a slot index within the current
    /// epoch; `None` if the slot lies outside the current epoch.
    pub fn slot_to_index(&self, slot: u64) -> (index: Option<usize>)
        ensures
            index == self@.slot_to_index(slot),
    {
        if slot < self.curr_epoch_slot_start {
            return None;
        }
        if slot >= self.next_epoch_slot_start {
            return None;
        }
        let index = slot - self.curr_epoch_slot_start;
        Some(#[verifier::truncate] (index as usize))
    }

    /// The current epoch's schedule.
    pub fn curr_schedule_ref(&self) -> (schedule: &HashMap<usize, String>)
        ensures
            identities(schedule@) == self@.curr_map,
    {
        &self.curr_schedule
    }

    /// The next epoch's schedule, open to change.
    pub fn next_schedule_mut(&mut self) -> (schedule: &mut HashMap<usize, String>)
        ensures
            identities(schedule@) == old(self)@.next_map,
            final(self)@ == (ScheduleView {
                next_map: identities(final(schedule)@),
                ..old(self)@
            }),
    {
        &mut self.next_schedule
    }
}

} // verus!

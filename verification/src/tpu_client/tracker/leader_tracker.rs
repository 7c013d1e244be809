//! Answers the question that the forwarding path asks: who leads the next
//! few slots, and where do they listen?
//!
//! Three things are tracked, each on its own:
//! 1. the current slot,
//! 2. the leader schedule of the current and of the next epoch,
//! 3. the socket of each validator identity.
//!
//! The schedule speaks of identities and sockets may change at any time, so
//! a socket is looked up by identity only when a leader is asked for.
use crate::error::{BackgroundFault, FetchError, InitError};
use crate::tpu_client::tracker::schedule_tracking::{
    initial_schedule,
    EpochInfo,
    ScheduleReply,
    ScheduleTracker,
    ScheduleView,
};
use crate::tpu_client::tracker::slots_tracker::{
    estimate,
    event_of,
    trim_ring,
    SlotEvent,
    SlotUpdate,
    SlotsTracker,
};
use vstd::prelude::*;
use vstd::string::StringExecFns;

verus! {

broadcast use vstd::std_specs::hash::group_hash_axioms;

/// How many leaders `get_leaders` looks for: the current slot's and the
/// next slot's.
pub const LEADER_LOOKAHEAD: u64 = 2;

/// A leader as the forwarding path needs it: identity, socket, and the slot
/// that was current when it was looked up.
pub type Leader = (Seq<char>, Seq<char>, u64);

/// The registry that a list of (identity, socket) entries stands for; of two
/// entries for one identity the later one counts.
pub open spec fn registry_of(entries: Seq<(String, String)>) -> Map<Seq<char>, Seq<char>>
    decreases entries.len(),
{
    if entries.len() == 0 {
        Map::empty()
    } else {
        registry_of(entries.drop_last()).insert(entries.last().0@, entries.last().1@)
    }
}

/// Whether one of `leaders` has the identity `identity`.
pub open spec fn has_identity(leaders: Seq<Leader>, identity: Seq<char>) -> bool {
    exists|i: int| 0 <= i < leaders.len() && (#[trigger] leaders[i]).0 == identity
}

/// The identity that leads the slot `offset` slots after `current_slot`, if
/// that slot lies in the current epoch and the schedule names its leader.
pub open spec fn leader_at(schedule: ScheduleView, current_slot: u64, offset: int) -> Option<
    Seq<char>,
> {
    let target = current_slot + offset;
    if target > u64::MAX {
        None
    } else {
        match schedule.slot_to_index(target as u64) {
            None => None,
            Some(index) => schedule.leader_for(index),
        }
    }
}

/// The leaders of the slots `current_slot + start` up to, and without,
/// `current_slot + end`, each once and in the order of their slots, as far
/// as the schedule names them and the registry knows their sockets.
pub open spec fn leaders_between(
    schedule: ScheduleView,
    registry: Map<Seq<char>, Seq<char>>,
    current_slot: u64,
    start: int,
    end: int,
) -> Seq<Leader>
    decreases end - start,
{
    if end <= start {
        Seq::empty()
    } else {
        let earlier = leaders_between(schedule, registry, current_slot, start, end - 1);
        match leader_at(schedule, current_slot, end - 1) {
            None => earlier,
            Some(identity) => if registry.contains_key(identity) && !has_identity(
                earlier,
                identity,
            ) {
                earlier.push((identity, registry[identity], current_slot))
            } else {
                earlier
            },
        }
    }
}

/// The first offset from `current_slot` that a lookup does not reach:
/// `end`, or the offset of the next epoch's first slot if that comes first.
pub open spec fn lookup_end(schedule: ScheduleView, current_slot: u64, end: u64) -> int {
    if end <= schedule.next_start - current_slot {
        end as int
    } else {
        schedule.next_start - current_slot
    }
}

/// What `get_future_leaders` returns: nothing before the first slot is
/// known or while the current slot lies outside the current epoch, else
/// the leaders of the slots asked for that lie in the current epoch.
pub open spec fn future_leaders(
    schedule: ScheduleView,
    registry: Map<Seq<char>, Seq<char>>,
    current_slot: u64,
    start: u64,
    end: u64,
) -> Seq<Leader> {
    if current_slot == 0 || current_slot < schedule.curr_start || current_slot
        >= schedule.next_start {
        Seq::empty()
    } else {
        leaders_between(
            schedule,
            registry,
            current_slot,
            start as int,
            lookup_end(schedule, current_slot, end),
        )
    }
}

/// A list of leaders as plain values.
pub open spec fn leader_model(leaders: Seq<(String, String, u64)>) -> Seq<Leader> {
    Seq::new(leaders.len(), |i: int| (leaders[i].0@, leaders[i].1@, leaders[i].2))
}

/// No identity is named twice among `leaders`.
pub open spec fn distinct_identities(leaders: Seq<Leader>) -> bool {
    forall|i: int, j: int|
        0 <= i < j < leaders.len() ==> (#[trigger] leaders[i]).0 != (#[trigger] leaders[j]).0
}

/// Each of `leaders` comes with the socket that `registry` holds for its
/// identity, and with `current_slot`.
pub open spec fn resolved_by(
    leaders: Seq<Leader>,
    registry: Map<Seq<char>, Seq<char>>,
    current_slot: u64,
) -> bool {
    forall|i: int|
        0 <= i < leaders.len() ==> {
            let leader = #[trigger] leaders[i];
            &&& registry.contains_key(leader.0)
            &&& leader.1 == registry[leader.0]
            &&& leader.2 == current_slot
        }
}

/// No identity is named twice among the leaders of a range of slots, and
/// each leader comes with the socket that the registry holds for it and with
/// the current slot.
pub proof fn lemma_leaders_between_distinct(
    schedule: ScheduleView,
    registry: Map<Seq<char>, Seq<char>>,
    current_slot: u64,
    start: int,
    end: int,
)
    ensures
        distinct_identities(leaders_between(schedule, registry, current_slot, start, end)),
        resolved_by(
            leaders_between(schedule, registry, current_slot, start, end),
            registry,
            current_slot,
        ),
    decreases end - start,
{
    if end > start {
        lemma_leaders_between_distinct(schedule, registry, current_slot, start, end - 1);
        let earlier = leaders_between(schedule, registry, current_slot, start, end - 1);
        let leaders = leaders_between(schedule, registry, current_slot, start, end);
        if leaders != earlier {
            let added = leaders.last();
            assert(leaders == earlier.push(added));
            assert(!has_identity(earlier, added.0));
            assert forall|i: int, j: int| 0 <= i < j < leaders.len() implies (
            #[trigger] leaders[i]).0 != (#[trigger] leaders[j]).0 by {
                if j == earlier.len() {
                    assert(earlier[i].0 != added.0);
                } else {
                    assert(earlier[i].0 != earlier[j].0);
                }
            }
            assert forall|i: int| 0 <= i < leaders.len() implies {
                let leader = #[trigger] leaders[i];
                &&& registry.contains_key(leader.0)
                &&& leader.1 == registry[leader.0]
                &&& leader.2 == current_slot
            } by {
                if i < earlier.len() {
                    assert(leaders[i] == earlier[i]);
                }
            }
        }
    }
}

/// Every leader of a slot in the range whose socket the registry knows is
/// among the leaders named for the range.
pub proof fn lemma_leaders_between_complete(
    schedule: ScheduleView,
    registry: Map<Seq<char>, Seq<char>>,
    current_slot: u64,
    start: int,
    end: int,
    offset: int,
)
    requires
        start <= offset < end,
        leader_at(schedule, current_slot, offset) is Some,
        registry.contains_key(leader_at(schedule, current_slot, offset)->Some_0),
    ensures
        has_identity(
            leaders_between(schedule, registry, current_slot, start, end),
            leader_at(schedule, current_slot, offset)->Some_0,
        ),
    decreases end - start,
{
    let identity = leader_at(schedule, current_slot, offset)->Some_0;
    let earlier = leaders_between(schedule, registry, current_slot, start, end - 1);
    let leaders = leaders_between(schedule, registry, current_slot, start, end);
    if offset < end - 1 {
        lemma_leaders_between_complete(schedule, registry, current_slot, start, end - 1, offset);
        let place = choose|i: int| 0 <= i < earlier.len() && (#[trigger] earlier[i]).0 == identity;
        assert(leaders[place].0 == identity);
    } else if !has_identity(earlier, identity) {
        assert(leaders[earlier.len() as int].0 == identity);
    } else {
        let place = choose|i: int| 0 <= i < earlier.len() && (#[trigger] earlier[i]).0 == identity;
        assert(leaders[place].0 == identity);
    }
}

/// Every leader named for a range of slots leads one of its slots.
pub proof fn lemma_leaders_between_sound(
    schedule: ScheduleView,
    registry: Map<Seq<char>, Seq<char>>,
    current_slot: u64,
    start: int,
    end: int,
    place: int,
)
    requires
        0 <= place < leaders_between(schedule, registry, current_slot, start, end).len(),
    ensures
        exists|offset: int|
            start <= offset < end && #[trigger] leader_at(schedule, current_slot, offset) == Some(
                leaders_between(schedule, registry, current_slot, start, end)[place].0,
            ),
    decreases end - start,
{
    let earlier = leaders_between(schedule, registry, current_slot, start, end - 1);
    let leaders = leaders_between(schedule, registry, current_slot, start, end);
    if end > start {
        if place < earlier.len() {
            lemma_leaders_between_sound(schedule, registry, current_slot, start, end - 1, place);
            let offset = choose|offset: int|
                start <= offset < end - 1 && #[trigger] leader_at(schedule, current_slot, offset)
                    == Some(earlier[place].0);
            assert(leaders[place] == earlier[place]);
            assert(leader_at(schedule, current_slot, offset) == Some(leaders[place].0));
        } else {
            assert(leader_at(schedule, current_slot, end - 1) == Some(leaders[place].0));
        }
    }
}

/// What `get_future_leaders` returns names no identity twice, and gives each
/// leader the socket that the registry holds for it.
pub proof fn lemma_future_leaders_distinct(
    schedule: ScheduleView,
    registry: Map<Seq<char>, Seq<char>>,
    current_slot: u64,
    start: u64,
    end: u64,
)
    ensures
        distinct_identities(future_leaders(schedule, registry, current_slot, start, end)),
        resolved_by(
            future_leaders(schedule, registry, current_slot, start, end),
            registry,
            current_slot,
        ),
{
    lemma_leaders_between_distinct(
        schedule,
        registry,
        current_slot,
        start as int,
        lookup_end(schedule, current_slot, end),
    );
}

/// In the last slot of an epoch a lookup from the current slot on names the
/// leader of that slot alone, however many slots it asks for: the slots
/// after it belong to the next epoch.
pub proof fn lemma_last_slot_of_epoch(
    schedule: ScheduleView,
    registry: Map<Seq<char>, Seq<char>>,
    current_slot: u64,
    count: u64,
)
    requires
        current_slot + 1 == schedule.next_start,
        count >= 1,
    ensures
        future_leaders(schedule, registry, current_slot, 0, count) == future_leaders(
            schedule,
            registry,
            current_slot,
            0,
            1,
        ),
        future_leaders(schedule, registry, current_slot, 0, count).len() <= 1,
        future_leaders(schedule, registry, current_slot, 0, count).len() == 1 ==> {
            &&& schedule.slot_to_index(current_slot) is Some
            &&& schedule.leader_for(schedule.slot_to_index(current_slot)->Some_0) == Some(
                future_leaders(schedule, registry, current_slot, 0, count)[0].0,
            )
        },
{
    let first = leaders_between(schedule, registry, current_slot, 0, 1);
    assert(leaders_between(schedule, registry, current_slot, 0, 0) == Seq::<Leader>::empty());
    assert(first.len() <= 1);
}

/// An endpoint that a node publishes: the IP address as text, and the port.
#[derive(Debug)]
pub struct NodeEndpoint {
    pub ip: String,
    pub port: u16,
}

/// A node of the cluster as the cluster reports it: its identity, its gossip
/// endpoint and its TPU-QUIC endpoint, each if the node publishes it.
#[derive(Debug)]
pub struct ClusterNode {
    pub pubkey: String,
    pub gossip: Option<NodeEndpoint>,
    pub tpu_quic: Option<NodeEndpoint>,
}

/// What the next step is after a slot notification was handled.
#[derive(Debug, Clone, Copy, PartialEq, Eq, Structural)]
pub enum SlotAction {
    /// The notification was of a kind that is not tracked.
    Ignored,
    /// The notification was recorded; the current slot lies before the next
    /// epoch.
    Recorded { current_slot: u64 },
    /// The notification was recorded, and the current slot has reached the
    /// next epoch: the schedule is to be rotated.
    RotationDue { current_slot: u64 },
}

/// Seconds that the slot listener waits before it subscribes again after a
/// subscription that ended without a failure, and at the least.
pub const LISTENER_BACKOFF_MIN_SECS: u64 = 1;

/// Seconds that the slot listener waits before it subscribes again at the
/// most.
pub const LISTENER_BACKOFF_MAX_SECS: u64 = 30;

/// The pause before the slot listener subscribes again, after a pause of
/// `current_secs`: twice as long after a failure, within the two bounds,
/// and the shortest pause after a subscription that ended without one.
pub open spec fn backoff_after(current_secs: u64, failed: bool) -> u64 {
    if !failed {
        LISTENER_BACKOFF_MIN_SECS
    } else if 2 * current_secs >= LISTENER_BACKOFF_MAX_SECS {
        LISTENER_BACKOFF_MAX_SECS
    } else if 2 * current_secs <= LISTENER_BACKOFF_MIN_SECS {
        LISTENER_BACKOFF_MIN_SECS
    } else {
        (2 * current_secs) as u64
    }
}

/// The pause stays within its bounds whatever it was before, and a failure
/// never shortens a pause that was within them.
pub proof fn lemma_backoff_bounded(current_secs: u64, failed: bool)
    ensures
        LISTENER_BACKOFF_MIN_SECS <= backoff_after(current_secs, failed)
            <= LISTENER_BACKOFF_MAX_SECS,
        failed && current_secs <= LISTENER_BACKOFF_MAX_SECS ==> backoff_after(current_secs, failed)
            >= current_secs,
{
}

/// The pause before the slot listener subscribes again.
pub fn next_backoff(current_secs: u64, failed: bool) -> (next: u64)
    ensures
        next == backoff_after(current_secs, failed),
        LISTENER_BACKOFF_MIN_SECS <= next <= LISTENER_BACKOFF_MAX_SECS,
{
    if !failed {
        LISTENER_BACKOFF_MIN_SECS
    } else if current_secs >= LISTENER_BACKOFF_MAX_SECS / 2 {
        LISTENER_BACKOFF_MAX_SECS
    } else if current_secs == 0 {
        LISTENER_BACKOFF_MIN_SECS
    } else {
        2 * current_secs
    }
}

/// The character of a decimal digit.
pub open spec fn digit_char(digit: nat) -> char {
    if digit == 0 {
        '0'
    } else if digit == 1 {
        '1'
    } else if digit == 2 {
        '2'
    } else if digit == 3 {
        '3'
    } else if digit == 4 {
        '4'
    } else if digit == 5 {
        '5'
    } else if digit == 6 {
        '6'
    } else if digit == 7 {
        '7'
    } else if digit == 8 {
        '8'
    } else {
        '9'
    }
}

/// A number in decimal, without leading zeros.
pub open spec fn decimal(number: nat) -> Seq<char>
    decreases number,
{
    if number < 10 {
        seq![digit_char(number)]
    } else {
        decimal(number / 10).push(digit_char(number % 10))
    }
}

/// A socket as text: the address, a colon, the port.
pub open spec fn socket_text(address: Seq<char>, port: u16) -> Seq<char> {
    address + seq![':'] + decimal(port as nat)
}

/// The socket at which a node takes transactions, if it takes any: the port
/// of its TPU-QUIC endpoint at the address of its gossip endpoint, or at
/// the TPU-QUIC endpoint's own address where the node publishes no gossip
/// endpoint. A node without a TPU-QUIC endpoint has none.
pub open spec fn node_socket(node: ClusterNode) -> Option<Seq<char>> {
    match node.tpu_quic {
        Some(tpu_quic) => Some(
            socket_text(
                match node.gossip {
                    Some(gossip) => gossip.ip@,
                    None => tpu_quic.ip@,
                },
                tpu_quic.port,
            ),
        ),
        None => None,
    }
}

/// The registry that the cluster's nodes give: for each node that publishes
/// a TPU-QUIC endpoint its socket, under its identity. Of two nodes with
/// one identity the later counts.
pub open spec fn sockets_of(nodes: Seq<ClusterNode>) -> Map<Seq<char>, Seq<char>>
    decreases nodes.len(),
{
    if nodes.len() == 0 {
        Map::empty()
    } else {
        let node = nodes.last();
        let earlier = sockets_of(nodes.drop_last());
        match node_socket(node) {
            Some(socket) => earlier.insert(node.pubkey@, socket),
            None => earlier,
        }
    }
}

/// The registry has an entry for exactly the identities of the nodes that
/// publish a TPU-QUIC endpoint, and the entry of an identity is the socket
/// of a node with that identity.
pub proof fn lemma_sockets_of_nodes(nodes: Seq<ClusterNode>, identity: Seq<char>)
    ensures
        sockets_of(nodes).contains_key(identity) <==> exists|i: int|
            0 <= i < nodes.len() && (#[trigger] nodes[i]).pubkey@ == identity
                && nodes[i].tpu_quic is Some,
        sockets_of(nodes).contains_key(identity) ==> exists|i: int|
            0 <= i < nodes.len() && (#[trigger] nodes[i]).pubkey@ == identity && node_socket(
                nodes[i],
            ) == Some(sockets_of(nodes)[identity]),
    decreases nodes.len(),
{
    if nodes.len() > 0 {
        let shorter = nodes.drop_last();
        let last = nodes.len() - 1;
        lemma_sockets_of_nodes(shorter, identity);
        if nodes[last].pubkey@ == identity && nodes[last].tpu_quic is Some {
            assert(node_socket(nodes[last]) == Some(sockets_of(nodes)[identity]));
        } else if sockets_of(shorter).contains_key(identity) {
            let place = choose|i: int|
                0 <= i < shorter.len() && (#[trigger] shorter[i]).pubkey@ == identity
                    && node_socket(shorter[i]) == Some(sockets_of(shorter)[identity]);
            assert(nodes[place] == shorter[place]);
        }
        if exists|i: int|
            0 <= i < nodes.len() && (#[trigger] nodes[i]).pubkey@ == identity
                && nodes[i].tpu_quic is Some {
            let place = choose|i: int|
                0 <= i < nodes.len() && (#[trigger] nodes[i]).pubkey@ == identity
                    && nodes[i].tpu_quic is Some;
            if place < last {
                assert(shorter[place] == nodes[place]);
            }
        }
    }
}

/// A decimal digit as text.
fn digit_str(digit: u16) -> (text: &'static str)
    requires
        digit < 10,
    ensures
        text@ == seq![digit_char(digit as nat)],
{
    proof {
        reveal_strlit("0");
        reveal_strlit("1");
        reveal_strlit("2");
        reveal_strlit("3");
        reveal_strlit("4");
        reveal_strlit("5");
        reveal_strlit("6");
        reveal_strlit("7");
        reveal_strlit("8");
        reveal_strlit("9");
    }
    let text = if digit == 0 {
        "0"
    } else if digit == 1 {
        "1"
    } else if digit == 2 {
        "2"
    } else if digit == 3 {
        "3"
    } else if digit == 4 {
        "4"
    } else if digit == 5 {
        "5"
    } else if digit == 6 {
        "6"
    } else if digit == 7 {
        "7"
    } else if digit == 8 {
        "8"
    } else {
        "9"
    };
    assert(text@ =~= seq![digit_char(digit as nat)]);
    text
}

/// Appends `number` in decimal to `text`.
fn push_decimal(text: &mut String, number: u16)
    ensures
        final(text)@ == old(text)@ + decimal(number as nat),
    decreases number,
{
    if number >= 10 {
        push_decimal(text, number / 10);
    }
    text.append(digit_str(number % 10));
    assert(text@ =~= old(text)@ + decimal(number as nat));
}

/// The text of the socket at `address` and `port`.
pub fn socket_string(address: &str, port: u16) -> (socket: String)
    ensures
        socket@ == socket_text(address@, port),
{
    let mut socket = String::from_str(address);
    proof {
        reveal_strlit(":");
    }
    socket.append(":");
    push_decimal(&mut socket, port);
    assert(socket@ =~= socket_text(address@, port));
    socket
}

/// Maps validator identities to the sockets of their TPU.
#[derive(Debug)]
pub struct SocketRegistry {
    entries: Vec<(String, String)>,
}

impl View for SocketRegistry {
    type V = Map<Seq<char>, Seq<char>>;

    closed spec fn view(&self) -> Map<Seq<char>, Seq<char>> {
        registry_of(self.entries@)
    }
}

/// The socket that the last entry for `identity` among `entries` gives.
fn find_socket<'a>(entries: &'a Vec<(String, String)>, identity: &String) -> (socket: Option<
    &'a String,
>)
    ensures
        match socket {
            Some(socket) => registry_of(entries@).contains_key(identity@) && registry_of(
                entries@,
            )[identity@] == socket@,
            None => !registry_of(entries@).contains_key(identity@),
        },
{
    let mut place: usize = entries.len();
    assert(entries@.subrange(0, place as int) == entries@);
    while place > 0
        invariant
            place <= entries.len(),
            registry_of(entries@).contains_key(identity@) == registry_of(
                entries@.subrange(0, place as int),
            ).contains_key(identity@),
            registry_of(entries@).contains_key(identity@) ==> registry_of(entries@)[identity@]
                == registry_of(entries@.subrange(0, place as int))[identity@],
        decreases place,
    {
        let ghost prefix = entries@.subrange(0, place as int);
        assert(prefix.last() == entries@[place - 1]);
        assert(prefix.drop_last() == entries@.subrange(0, place - 1));
        if entries[place - 1].0 == *identity {
            return Some(&entries[place - 1].1);
        }
        place -= 1;
    }
    None
}

impl SocketRegistry {
    /// A registry that knows no socket.
    pub fn new() -> (registry: Self)
        ensures
            registry@ == Map::<Seq<char>, Seq<char>>::empty(),
    {
        Self { entries: Vec::new() }
    }

    /// The socket of `identity`, if the registry knows one.
    pub fn get(&self, identity: &String) -> (socket: Option<&String>)
        ensures
            match socket {
                Some(socket) => self@.contains_key(identity@) && self@[identity@] == socket@,
                None => !self@.contains_key(identity@),
            },
    {
        find_socket(&self.entries, identity)
    }

    /// Records `socket` as the socket of `identity`, in place of an earlier
    /// one.
    pub fn insert(&mut self, identity: String, socket: String)
        ensures
            final(self)@ == old(self)@.insert(identity@, socket@),
    {
        proof {
            let grown = self.entries@.push((identity, socket));
            assert(grown.drop_last() == self.entries@);
        }
        self.entries.push((identity, socket));
    }
}

/// Whether one of `leaders` has the identity `identity`.
fn holds_identity(leaders: &Vec<(String, String, u64)>, identity: &String) -> (held: bool)
    ensures
        held == has_identity(leader_model(leaders@), identity@),
{
    let mut place: usize = 0;
    while place < leaders.len()
        invariant
            place <= leaders.len(),
            forall|i: int| 0 <= i < place ==> (#[trigger] leader_model(leaders@)[i]).0 != identity@,
        decreases leaders.len() - place,
    {
        if leaders[place].0 == *identity {
            assert(leader_model(leaders@)[place as int].0 == identity@);
            return true;
        }
        place += 1;
    }
    false
}

/// Tracks the current slot, the leader schedule and the leaders' sockets,
/// and names the leaders of the slots to come.
#[derive(Debug)]
pub struct LeaderTracker {
    pub slots_tracker: SlotsTracker,
    schedule_tracker: ScheduleTracker,
    leader_sockets: SocketRegistry,
}

impl LeaderTracker {
    /// The schedule that the tracker holds.
    pub closed spec fn schedule(&self) -> ScheduleView {
        self.schedule_tracker@
    }

    /// The sockets that the tracker knows, by identity.
    pub closed spec fn sockets(&self) -> Map<Seq<char>, Seq<char>> {
        self.leader_sockets@
    }

    /// The current slot as the slot tracker estimates it.
    pub closed spec fn slot(&self) -> u64 {
        self.slots_tracker.spec_current_slot()
    }

    /// The recent slot events that the slot tracker holds.
    pub closed spec fn slot_events(&self) -> Seq<SlotEvent> {
        self.slots_tracker.events()
    }

    /// Creates a tracker from the cluster's report of its epoch and the
    /// schedules of that epoch and of the next. It has seen no slot yet and
    /// knows no socket.
    pub fn new(
        epoch_info: Option<EpochInfo>,
        curr_reply: ScheduleReply,
        next_reply: ScheduleReply,
    ) -> (result: Result<Self, InitError>)
        ensures
            match result {
                Ok(tracker) => {
                    &&& initial_schedule(
                        epoch_info,
                        curr_reply,
                        next_reply,
                    ) == Ok::<_, InitError>(tracker.schedule())
                    &&& tracker.schedule().well_formed()
                    &&& tracker.sockets() == Map::<Seq<char>, Seq<char>>::empty()
                    &&& tracker.slot() == 0
                    &&& tracker.slot_events() == Seq::<SlotEvent>::empty()
                },
                Err(error) => initial_schedule(
                    epoch_info,
                    curr_reply,
                    next_reply,
                ) == Err::<ScheduleView, _>(error),
            },
    {
        match ScheduleTracker::new(epoch_info, curr_reply, next_reply) {
            Ok(schedule_tracker) => Ok(
                Self {
                    slots_tracker: SlotsTracker::new(),
                    schedule_tracker,
                    leader_sockets: SocketRegistry::new(),
                },
            ),
            Err(error) => Err(error),
        }
    }

    /// The current slot as the slot tracker estimates it.
    pub fn current_slot(&self) -> (slot: u64)
        ensures
            slot == self.slot(),
    {
        self.slots_tracker.current_slot()
    }

    /// The schedule tracker.
    pub fn schedule_tracker(&self) -> (tracker: &ScheduleTracker)
        ensures
            tracker@ == self.schedule(),
    {
        &self.schedule_tracker
    }

    /// The leaders of the slots from `start` to `end` slots after the
    /// current one, `end` not included, as (identity, socket, current slot).
    ///
    /// A lookup does not cross into the next epoch. Each leader is named
    /// once, and a leader whose socket is unknown is left out.
    pub fn get_future_leaders(&self, start: u64, end: u64) -> (leaders: Vec<(String, String, u64)>)
        ensures
            leader_model(leaders@) == future_leaders(
                self.schedule(),
                self.sockets(),
                self.slot(),
                start,
                end,
            ),
    {
        let curr_slot = self.slots_tracker.current_slot();
        let mut leaders: Vec<(String, String, u64)> = Vec::new();
        if curr_slot == 0 {
            assert(leader_model(leaders@) == Seq::<Leader>::empty());
            return leaders;
        }
        if curr_slot < self.schedule_tracker.current_epoch_slot_start() || curr_slot
            >= self.schedule_tracker.next_epoch_slot_start() {
            assert(leader_model(leaders@) == Seq::<Leader>::empty());
            return leaders;
        }
        let ghost schedule = self.schedule();
        let ghost registry = self.sockets();
        let ghost stop = lookup_end(schedule, curr_slot, end);
        let mut i: u64 = start;
        assert(leader_model(leaders@) == leaders_between(
            schedule,
            registry,
            curr_slot,
            start as int,
            start as int,
        ));
        while i < end
            invariant
                schedule == self.schedule(),
                registry == self.sockets(),
                stop == lookup_end(schedule, curr_slot, end),
                schedule.curr_start <= curr_slot < schedule.next_start,
                start <= i,
                i <= stop || start >= stop,
                leader_model(leaders@) == leaders_between(
                    schedule,
                    registry,
                    curr_slot,
                    start as int,
                    if start >= stop {
                        start as int
                    } else {
                        i as int
                    },
                ),
            ensures
                leader_model(leaders@) == leaders_between(
                    schedule,
                    registry,
                    curr_slot,
                    start as int,
                    stop,
                ),
            decreases end - i,
        {
            let target_slot = match curr_slot.checked_add(i) {
                Some(slot) => slot,
                None => {
                    break ;
                },
            };
            if target_slot >= self.schedule_tracker.next_epoch_slot_start() {
                break ;
            }
            let ghost earlier = leader_model(leaders@);
            assert(i < stop);
            match self.schedule_tracker.slot_to_index(target_slot) {
                Some(slot_index) => {
                    match self.schedule_tracker.curr_schedule_ref().get(&slot_index) {
                        Some(leader_pubkey) => {
                            assert(schedule.leader_for(slot_index) == Some(leader_pubkey@));
                            if !holds_identity(&leaders, leader_pubkey) {
                                match self.leader_sockets.get(leader_pubkey) {
                                    Some(socket) => {
                                        leaders.push(
                                            (leader_pubkey.clone(), socket.clone(), curr_slot),
                                        );
                                        assert(leader_model(leaders@) == earlier.push(
                                            (leader_pubkey@, socket@, curr_slot),
                                        ));
                                    },
                                    None => {},
                                }
                            }
                        },
                        None => {
                            assert(schedule.leader_for(slot_index) is None);
                        },
                    }
                },
                None => {},
            }
            i += 1;
        }
        leaders
    }

    /// Replaces the registry of sockets by what the cluster reports of its
    /// nodes: an entry for each node that publishes a TPU-QUIC endpoint. The
    /// registry changes as a whole: a reader sees the old one or the new
    /// one. Where the cluster gave no report the registry stays as it is and
    /// the call fails.
    pub fn update_leader_sockets(&mut self, nodes: Option<Vec<ClusterNode>>) -> (result: Result<
        (),
        BackgroundFault,
    >)
        ensures
            final(self).schedule() == old(self).schedule(),
            final(self).slot() == old(self).slot(),
            final(self).slot_events() == old(self).slot_events(),
            match nodes {
                Some(nodes) => result is Ok && final(self).sockets() == sockets_of(nodes@),
                None => {
                    &&& result == Err::<(), _>(BackgroundFault::SocketRefreshFailed)
                    &&& final(self).sockets() == old(self).sockets()
                },
            },
    {
        let nodes = match nodes {
            Some(nodes) => nodes,
            None => {
                return Err(BackgroundFault::SocketRefreshFailed);
            },
        };
        let mut new_sockets = SocketRegistry::new();
        let mut place: usize = 0;
        assert(nodes@.subrange(0, 0) == Seq::<ClusterNode>::empty());
        while place < nodes.len()
            invariant
                place <= nodes.len(),
                new_sockets@ == sockets_of(nodes@.subrange(0, place as int)),
            decreases nodes.len() - place,
        {
            let node = &nodes[place];
            proof {
                let taken = nodes@.subrange(0, place + 1);
                assert(taken.drop_last() == nodes@.subrange(0, place as int));
                assert(taken.last() == *node);
            }
            match &node.tpu_quic {
                Some(tpu_quic) => {
                    let address = match &node.gossip {
                        Some(gossip) => gossip.ip.as_str(),
                        None => tpu_quic.ip.as_str(),
                    };
                    new_sockets.insert(node.pubkey.clone(), socket_string(address, tpu_quic.port));
                },
                None => {},
            }
            place += 1;
        }
        assert(nodes@.subrange(0, place as int) == nodes@);
        self.leader_sockets = new_sockets;
        Ok(())
    }

    /// Records a slot notification and tells what is to be done next.
    pub fn handle_slot_event(&mut self, slot_event: SlotUpdate) -> (action: SlotAction)
        ensures
            final(self).schedule() == old(self).schedule(),
            final(self).sockets() == old(self).sockets(),
            match event_of(slot_event) {
                None => {
                    &&& action == SlotAction::Ignored
                    &&& final(self).slot_events() == old(self).slot_events()
                    &&& final(self).slot() == old(self).slot()
                },
                Some(event) => {
                    &&& final(self).slot_events() == trim_ring(old(self).slot_events().push(event))
                    &&& final(self).slot() == estimate(final(self).slot_events())
                    &&& action == if final(self).slot() >= final(self).schedule().next_start {
                        SlotAction::RotationDue { current_slot: final(self).slot() }
                    } else {
                        SlotAction::Recorded { current_slot: final(self).slot() }
                    }
                },
            },
    {
        let curr_slot = match self.slots_tracker.record(slot_event) {
            Some(slot) => slot,
            None => {
                return SlotAction::Ignored;
            },
        };
        if curr_slot >= self.schedule_tracker.next_epoch_slot_start() {
            SlotAction::RotationDue { current_slot: curr_slot }
        } else {
            SlotAction::Recorded { current_slot: curr_slot }
        }
    }

    /// The first slot of the epoch whose schedule a rotation at `curr_slot`
    /// needs, if one is due.
    pub fn rotation_target(&self, curr_slot: u64) -> (target: Option<u64>)
        ensures
            target == self.schedule().rotation_target(curr_slot),
    {
        self.schedule_tracker.rotation_target(curr_slot)
    }

    /// Rotates the schedule to the next epoch, with `reply` as the cluster's
    /// answer for the epoch after it. Where no rotation is due nothing
    /// changes; where `reply` gives no schedule nothing changes and the
    /// call fails.
    pub fn rotate_epoch(&mut self, curr_slot: u64, reply: ScheduleReply) -> (result: Result<
        (),
        BackgroundFault,
    >)
        ensures
            final(self).sockets() == old(self).sockets(),
            final(self).slot() == old(self).slot(),
            final(self).slot_events() == old(self).slot_events(),
            final(self).schedule() == old(self).schedule().rotated(curr_slot, reply).1,
            result == match old(self).schedule().rotated(curr_slot, reply).0 {
                Ok(_) => Ok::<(), BackgroundFault>(()),
                Err(error) => Err::<(), _>(BackgroundFault::RotationFailed(error)),
            },
    {
        match self.schedule_tracker.maybe_rotate(curr_slot, reply) {
            Ok(_) => Ok(()),
            Err(error) => Err(BackgroundFault::RotationFailed(error)),
        }
    }

    /// The current leader, and the next slot's leader if it is another one.
    pub fn get_leaders(&self) -> (leaders: Vec<(String, String, u64)>)
        ensures
            leader_model(leaders@) == future_leaders(
                self.schedule(),
                self.sockets(),
                self.slot(),
                0,
                LEADER_LOOKAHEAD,
            ),
    {
        self.get_future_leaders(0, LEADER_LOOKAHEAD)
    }
}

} // verus!

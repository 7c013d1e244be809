//! The pool of connections to the leaders' TPU sockets.
//!
//! The pool is a table from socket to entry. An entry without a connection
//! marks a dial that is under way, so that no second dial to the same socket
//! is begun; an entry with a connection is used for as long as the
//! connection has no close reason.
//!
//! A lookup hands out a live connection or nothing, and takes a connection
//! that it finds closed out of the table. Only a caller that asks to connect
//! is told of a dial that is under way.
use crate::error::GatewayError;
use crate::tpu_client::tracker::leader_tracker::{leader_model, Leader};
use dashmap::DashMap;
use std::time::Duration;
use vstd::prelude::*;
use vstd::string::StringExecFns;

verus! {

/// The ALPN label of the TPU protocol.
pub const ALPN_TPU_PROTOCOL_ID: &'static str = "solana-tpu";

/// Seconds of silence after which an outbound connection is given up.
pub const QUIC_MAX_TIMEOUT_SECS: u64 = 5;

/// Seconds between keep-alive packets on an outbound connection.
pub const QUIC_KEEP_ALIVE_SECS: u64 = 4;

/// The error code with which the pool closes its connections.
pub const SHUTDOWN_ERROR_CODE: u32 = 0;

/// `dashmap::DashMap`, the table that the pool keeps its entries in. Nothing
/// is known of a table but what `pool_entries` names.
#[verifier::external_type_specification]
#[verifier::external_body]
#[verifier::reject_recursive_types(K)]
#[verifier::reject_recursive_types(V)]
#[verifier::reject_recursive_types(S)]
pub struct ExDashMap<K, V, S>(DashMap<K, V, S>);

/// `quinn::Connection`, a handle to a QUIC connection. Nothing is known of a
/// handle; it is carried through.
#[verifier::external_type_specification]
#[verifier::external_body]
pub struct ExQuinnConnection(quinn::Connection);

/// Result of a transaction delivery attempt.
#[derive(Debug, Clone, Copy)]
pub struct DeliveryConfirmation {
    pub delivered: bool,
    pub latency: Duration,
}

/// An entry of the pool: a connection, or none while the dial is under way.
#[derive(Debug)]
pub struct PoolEntry {
    pub conn: Option<quinn::Connection>,
}

impl Default for PoolEntry {
    /// The mark of a dial that is under way.
    fn default() -> (entry: Self)
        ensures
            entry.conn is None,
    {
        PoolEntry { conn: None }
    }
}

/// What a table of the pool holds: its entries by socket. The pool changes
/// its table through exclusive references only, so that a table that is
/// shared holds what it held.
pub uninterp spec fn pool_entries(table: DashMap<String, PoolEntry>) -> Map<Seq<char>, PoolEntry>;

/// A pool without entries.
pub open spec fn empty_pool() -> Map<Seq<char>, PoolEntry> {
    Map::empty()
}

/// `DashMap::new`: a table without entries.
#[verifier::external_body]
fn new_table() -> (table: DashMap<String, PoolEntry>)
    ensures
        pool_entries(table) == empty_pool(),
{
    DashMap::new()
}

/// `DashMap::get`: the entry under `key`, if the table holds one. The entry
/// comes as a copy whose connection is a clone of the table's, which is
/// another handle to the same connection.
#[verifier::external_body]
fn table_get(table: &DashMap<String, PoolEntry>, key: &str) -> (entry: Option<PoolEntry>)
    ensures
        match entry {
            Some(entry) => pool_entries(*table).contains_key(key@) && pool_entries(*table)[key@]
                == entry,
            None => !pool_entries(*table).contains_key(key@),
        },
{
    match table.get(key) {
        Some(entry) => Some(PoolEntry { conn: entry.value().conn.clone() }),
        None => None,
    }
}

/// `DashMap::insert`: puts `entry` under `key`, in place of an earlier
/// entry under it.
#[verifier::external_body]
fn table_insert(table: &mut DashMap<String, PoolEntry>, key: String, entry: PoolEntry)
    ensures
        pool_entries(*final(table)) == pool_entries(*old(table)).insert(key@, entry),
{
    table.insert(key, entry);
}

/// `DashMap::remove`: takes the entry under `key` out, if there is one.
#[verifier::external_body]
fn table_remove(table: &mut DashMap<String, PoolEntry>, key: &str)
    ensures
        pool_entries(*final(table)) == pool_entries(*old(table)).remove(key@),
{
    table.remove(key);
}

/// `DashMap::len`: the number of entries.
#[verifier::external_body]
fn table_len(table: &DashMap<String, PoolEntry>) -> (len: usize)
    ensures
        len == pool_entries(*table).len(),
{
    table.len()
}

/// `DashMap::iter`: the entries of the table, each once and in no order
/// that could be told. Each comes as a copy, as from `table_get`.
#[verifier::external_body]
fn table_entries(table: &DashMap<String, PoolEntry>) -> (entries: Vec<PoolEntry>)
    ensures
        forall|i: int|
            0 <= i < entries@.len() ==> exists|key: Seq<char>|
                pool_entries(*table).contains_key(key) && pool_entries(*table)[key]
                    == #[trigger] entries@[i],
        forall|key: Seq<char>|
            pool_entries(*table).contains_key(key) ==> exists|i: int|
                0 <= i < entries@.len() && entries@[i] == #[trigger] pool_entries(*table)[key],
{
    table.iter().map(|entry| PoolEntry { conn: entry.value().conn.clone() }).collect()
}

/// `DashMap::clear`: takes every entry out.
#[verifier::external_body]
fn table_clear(table: &mut DashMap<String, PoolEntry>)
    ensures
        pool_entries(*final(table)) == empty_pool(),
{
    table.clear();
}

/// `quinn::Connection::close_reason`: whether the connection has no close
/// reason yet. What it returns depends on the network, and nothing is
/// claimed of it.
#[verifier::external_body]
fn connection_is_open(connection: &quinn::Connection) -> (open: bool) {
    connection.close_reason().is_none()
}

/// `quinn::Connection::close`: closes the connection with the given error
/// code and reason.
#[verifier::external_body]
fn close_connection(connection: &quinn::Connection, error_code: u32, reason: &[u8]) {
    connection.close(error_code.into(), reason);
}

/// What is to be done for a caller that wants a connection to a socket.
#[derive(Debug)]
pub enum ConnectDecision {
    /// The pool holds a live connection: use it.
    Reuse(quinn::Connection),
    /// The pool held no live connection and has marked the socket as being
    /// dialled: dial, and report the outcome with `complete_connection`.
    Dial,
    /// A dial to the socket is under way: do not dial.
    AlreadyConnecting,
}

/// How a dial ended.
#[derive(Debug)]
pub enum DialOutcome {
    /// The peer took early data: the connection was usable at once.
    EarlyData(quinn::Connection),
    /// The connection came out of a full handshake.
    Handshake(quinn::Connection),
    /// The address could not be dialled or the handshake failed.
    Failed,
}

impl DialOutcome {
    /// The connection that the dial gave, if it gave one.
    pub open spec fn connection(self) -> Option<quinn::Connection> {
        match self {
            DialOutcome::EarlyData(connection) => Some(connection),
            DialOutcome::Handshake(connection) => Some(connection),
            DialOutcome::Failed => None,
        }
    }
}

/// A leader to write to: its identity, its socket and the live connection
/// to it.
pub type Target = (Seq<char>, Seq<char>, quinn::Connection);

/// Whether a dial to `socket` is under way: the pool holds an entry for it
/// that has no connection yet.
pub open spec fn is_pending(entries: Map<Seq<char>, PoolEntry>, socket: Seq<char>) -> bool {
    entries.contains_key(socket) && entries[socket].conn is None
}

/// What a lookup of `socket` gives, `open` being whether the entry's
/// connection, if it has one, was found without a close reason: the
/// connection of a live entry, and nothing for a socket that has no entry,
/// that is being dialled, or whose connection was found closed.
pub open spec fn lookup(entries: Map<Seq<char>, PoolEntry>, socket: Seq<char>, open: bool) -> Option<
    quinn::Connection,
> {
    if entries.contains_key(socket) && open {
        entries[socket].conn
    } else {
        None
    }
}

/// The pool after a lookup of `socket`: an entry whose connection was found
/// closed is taken out, and nothing else changes.
pub open spec fn after_lookup(
    entries: Map<Seq<char>, PoolEntry>,
    socket: Seq<char>,
    open: bool,
) -> Map<Seq<char>, PoolEntry> {
    if entries.contains_key(socket) && entries[socket].conn is Some && !open {
        entries.remove(socket)
    } else {
        entries
    }
}

/// What a caller that wants a connection to `socket` is told, and the pool
/// after it: while a dial to the socket is under way the caller is told so
/// and nothing changes; a live connection is handed out; and else the
/// caller is told to dial and the socket is marked as being dialled.
pub open spec fn connect_step(entries: Map<Seq<char>, PoolEntry>, socket: Seq<char>, open: bool) -> (
    ConnectDecision,
    Map<Seq<char>, PoolEntry>,
) {
    if is_pending(entries, socket) {
        (ConnectDecision::AlreadyConnecting, entries)
    } else {
        match lookup(entries, socket, open) {
            Some(connection) => (ConnectDecision::Reuse(connection), entries),
            None => (ConnectDecision::Dial, entries.insert(socket, PoolEntry { conn: None })),
        }
    }
}

/// The pool after the dial to `socket` ended: the connection stands under
/// the socket, or after a failure nothing does.
pub open spec fn completed(
    entries: Map<Seq<char>, PoolEntry>,
    socket: Seq<char>,
    outcome: DialOutcome,
) -> Map<Seq<char>, PoolEntry> {
    match outcome.connection() {
        Some(connection) => entries.insert(socket, PoolEntry { conn: Some(connection) }),
        None => entries.remove(socket),
    }
}

/// The leaders among `leaders` to which the pool holds a live connection,
/// in their order, and the pool after they were looked up; `open[i]` is
/// whether the connection to leader `i`, if the pool holds one, was found
/// without a close reason.
pub open spec fn fanout_step(
    entries: Map<Seq<char>, PoolEntry>,
    leaders: Seq<Leader>,
    open: Seq<bool>,
) -> (Seq<Target>, Map<Seq<char>, PoolEntry>)
    decreases leaders.len(),
{
    if leaders.len() == 0 || open.len() != leaders.len() {
        (Seq::empty(), entries)
    } else {
        let (earlier, pool) = fanout_step(entries, leaders.drop_last(), open.drop_last());
        let leader = leaders.last();
        let targets = match lookup(pool, leader.1, open.last()) {
            Some(connection) => earlier.push((leader.0, leader.1, connection)),
            None => earlier,
        };
        (targets, after_lookup(pool, leader.1, open.last()))
    }
}

/// A list of targets as plain values.
pub open spec fn target_model(targets: Seq<(String, String, quinn::Connection)>) -> Seq<Target> {
    Seq::new(targets.len(), |i: int| (targets[i].0@, targets[i].1@, targets[i].2))
}

/// Whether one of the writes went through.
pub open spec fn any_delivered(outcomes: Seq<Result<(), String>>) -> bool {
    exists|i: int| 0 <= i < outcomes.len() && (#[trigger] outcomes[i]) is Ok
}

/// The text of the last failure among `outcomes`; where there was no write
/// at all, the text that says so.
pub open spec fn last_failure(outcomes: Seq<Result<(), String>>) -> Seq<char>
    decreases outcomes.len(),
{
    if outcomes.len() == 0 {
        "Failed sending TX"@
    } else {
        match outcomes.last() {
            Err(text) => text@,
            Ok(_) => last_failure(outcomes.drop_last()),
        }
    }
}

/// No second dial to a socket is begun while one is under way: a caller that
/// comes after the one that was told to dial, and before that dial has
/// ended, is told that the socket is being dialled, and the pool stays as it
/// is. A lookup in between gives nothing and changes nothing.
pub proof fn lemma_single_flight(
    entries: Map<Seq<char>, PoolEntry>,
    socket: Seq<char>,
    first_open: bool,
    second_open: bool,
)
    requires
        connect_step(entries, socket, first_open).0 is Dial,
    ensures
        is_pending(connect_step(entries, socket, first_open).1, socket),
        connect_step(connect_step(entries, socket, first_open).1, socket, second_open) == (
            ConnectDecision::AlreadyConnecting,
            connect_step(entries, socket, first_open).1,
        ),
        lookup(connect_step(entries, socket, first_open).1, socket, second_open) is None,
        after_lookup(connect_step(entries, socket, first_open).1, socket, second_open)
            == connect_step(entries, socket, first_open).1,
{
}

/// A caller is told that a dial is under way exactly when the pool holds an
/// entry without a connection for the socket, whatever is observed of the
/// network.
pub proof fn lemma_already_connecting(
    entries: Map<Seq<char>, PoolEntry>,
    socket: Seq<char>,
    open: bool,
)
    ensures
        connect_step(entries, socket, open).0 is AlreadyConnecting <==> is_pending(entries, socket),
{
}

/// A lookup hands out nothing but the connection of an entry that the pool
/// holds for the socket, and only one that was found without a close
/// reason.
pub proof fn lemma_lookup_gives_open_entry(
    entries: Map<Seq<char>, PoolEntry>,
    socket: Seq<char>,
    open: bool,
)
    ensures
        lookup(entries, socket, open) matches Some(connection) ==> open && entries.contains_key(
            socket,
        ) && entries[socket].conn == Some(connection),
        !entries.contains_key(socket) || is_pending(entries, socket) || !open ==> lookup(
            entries,
            socket,
            open,
        ) is None,
        is_pending(entries, socket) || !entries.contains_key(socket) ==> after_lookup(
            entries,
            socket,
            open,
        ) == entries,
{
}

/// After a dial that gave a connection, a lookup of the socket returns that
/// connection for as long as it has no close reason and leaves the pool as
/// it is, and a caller that wants a connection is given it without a dial.
pub proof fn lemma_completed_is_found(
    entries: Map<Seq<char>, PoolEntry>,
    socket: Seq<char>,
    outcome: DialOutcome,
)
    requires
        outcome.connection() is Some,
    ensures
        lookup(completed(entries, socket, outcome), socket, true) == outcome.connection(),
        after_lookup(completed(entries, socket, outcome), socket, true) == completed(
            entries,
            socket,
            outcome,
        ),
        connect_step(completed(entries, socket, outcome), socket, true) == (
            ConnectDecision::Reuse(outcome.connection()->Some_0),
            completed(entries, socket, outcome),
        ),
{
}

/// After a dial that failed the socket has no entry, so that the next caller
/// is told to dial.
pub proof fn lemma_failed_dial_is_forgotten(
    entries: Map<Seq<char>, PoolEntry>,
    socket: Seq<char>,
    open: bool,
)
    ensures
        !completed(entries, socket, DialOutcome::Failed).contains_key(socket),
        connect_step(completed(entries, socket, DialOutcome::Failed), socket, open).0 is Dial,
{
}

/// A connection that a lookup found closed is gone from the pool, so that
/// the next caller that wants one is told to dial.
pub proof fn lemma_closed_is_evicted(
    entries: Map<Seq<char>, PoolEntry>,
    socket: Seq<char>,
    open: bool,
)
    requires
        entries.contains_key(socket),
        entries[socket].conn is Some,
    ensures
        lookup(entries, socket, false) is None,
        !after_lookup(entries, socket, false).contains_key(socket),
        connect_step(after_lookup(entries, socket, false), socket, open).0 is Dial,
{
}

/// Manages the connections to the leaders' TPU sockets.
#[derive(Debug)]
pub struct TpuConnectionManager {
    connections: DashMap<String, PoolEntry>,
}

impl View for TpuConnectionManager {
    type V = Map<Seq<char>, PoolEntry>;

    closed spec fn view(&self) -> Map<Seq<char>, PoolEntry> {
        pool_entries(self.connections)
    }
}

impl TpuConnectionManager {
    /// Creates a pool without connections.
    pub fn new() -> (manager: Self)
        ensures
            manager@ == empty_pool(),
    {
        Self { connections: new_table() }
    }

    /// The entry that the pool holds for `validator`, and whether its
    /// connection, if it has one, is without a close reason at this moment.
    fn observe(&self, validator: &str) -> (observed: (Option<PoolEntry>, bool))
        ensures
            match observed.0 {
                Some(entry) => self@.contains_key(validator@) && self@[validator@] == entry,
                None => !self@.contains_key(validator@),
            },
    {
        let entry = table_get(&self.connections, validator);
        let open = match &entry {
            Some(entry) => match &entry.conn {
                Some(connection) => connection_is_open(connection),
                None => false,
            },
            None => false,
        };
        (entry, open)
    }

    /// What a lookup of `validator` gives when the pool holds `entry` for
    /// it, `open` being whether the entry's connection, if it has one, was
    /// found without a close reason: the connection if it is live, else
    /// nothing. An entry whose connection was found closed is taken out of
    /// the pool; nothing else changes it.
    pub fn lookup_result(&mut self, validator: &str, entry: Option<PoolEntry>, open: bool) -> (result:
        Result<Option<quinn::Connection>, GatewayError>)
        ensures
            result == Ok::<_, GatewayError>(
                match entry {
                    Some(held) => if open {
                        held.conn
                    } else {
                        None
                    },
                    None => None,
                },
            ),
            final(self)@ == if entry matches Some(held) && held.conn is Some && !open {
                old(self)@.remove(validator@)
            } else {
                old(self)@
            },
    {
        match entry {
            None => Ok(None),
            Some(entry) => match entry.conn {
                None => Ok(None),
                Some(connection) => if open {
                    Ok(Some(connection))
                } else {
                    table_remove(&mut self.connections, validator);
                    Ok(None)
                },
            },
        }
    }

    /// The live connection to `validator`, if the pool holds one; nothing
    /// for a socket that has no entry, that is being dialled, or whose
    /// connection is closed. Does not dial and never fails.
    ///
    /// A connection is live as long as it has no close reason; whether it
    /// has one is found out at the time of the call. An entry whose
    /// connection is found closed is taken out of the pool.
    pub fn get_connection(&mut self, validator: &str) -> (result: Result<
        Option<quinn::Connection>,
        GatewayError,
    >)
        ensures
            exists|open: bool|
                result == Ok::<_, GatewayError>(#[trigger] lookup(old(self)@, validator@, open))
                    && final(self)@ == after_lookup(old(self)@, validator@, open),
    {
        let (entry, open) = self.observe(validator);
        let result = self.lookup_result(validator, entry, open);
        proof {
            let witness = if old(self)@.contains_key(validator@) && old(
                self,
            )@[validator@].conn is Some {
                open
            } else {
                true
            };
            assert(result == Ok::<_, GatewayError>(lookup(old(self)@, validator@, witness)));
            assert(self@ == after_lookup(old(self)@, validator@, witness));
        }
        result
    }

    /// What a caller that wants a connection to `validator` is told when the
    /// pool holds `entry` for it, `open` being whether the entry's
    /// connection, if it has one, was found without a close reason.
    ///
    /// An entry without a connection means that a dial is under way, and
    /// nothing changes. A live connection is handed out. Else the caller is
    /// told to dial and the socket is marked as being dialled, in place of
    /// an entry whose connection was found closed.
    pub fn connect_decision(&mut self, validator: &str, entry: Option<PoolEntry>, open: bool) -> (decision:
        ConnectDecision)
        ensures
            match entry {
                Some(held) => match held.conn {
                    None => {
                        &&& decision == ConnectDecision::AlreadyConnecting
                        &&& final(self)@ == old(self)@
                    },
                    Some(connection) => if open {
                        &&& decision == ConnectDecision::Reuse(connection)
                        &&& final(self)@ == old(self)@
                    } else {
                        &&& decision == ConnectDecision::Dial
                        &&& final(self)@ == old(self)@.insert(validator@, PoolEntry { conn: None })
                    },
                },
                None => {
                    &&& decision == ConnectDecision::Dial
                    &&& final(self)@ == old(self)@.insert(validator@, PoolEntry { conn: None })
                },
            },
    {
        match entry {
            Some(held) => match held.conn {
                None => ConnectDecision::AlreadyConnecting,
                Some(connection) => if open {
                    ConnectDecision::Reuse(connection)
                } else {
                    table_insert(
                        &mut self.connections,
                        validator.to_owned(),
                        PoolEntry::default(),
                    );
                    ConnectDecision::Dial
                },
            },
            None => {
                table_insert(&mut self.connections, validator.to_owned(), PoolEntry::default());
                ConnectDecision::Dial
            },
        }
    }

    /// Gets the live connection to `validator`, or tells the caller to dial.
    ///
    /// Where the caller is told to dial, the socket is marked as being
    /// dialled until `complete_connection` is called for it, and callers
    /// that come meanwhile are told `AlreadyConnecting`. An entry whose
    /// connection was found closed gives way to that mark.
    pub fn get_or_create_connection(&mut self, validator: &str) -> (decision: ConnectDecision)
        ensures
            exists|open: bool|
                (decision, final(self)@) == #[trigger] connect_step(old(self)@, validator@, open),
    {
        let (entry, open) = self.observe(validator);
        let decision = self.connect_decision(validator, entry, open);
        proof {
            assert((decision, self@) == connect_step(old(self)@, validator@, open));
        }
        decision
    }

    /// Records how the dial to `validator` ended: a connection is put under
    /// the socket, and after a failure the socket's entry is taken out and
    /// the call fails.
    pub fn complete_connection(&mut self, validator: &str, outcome: DialOutcome) -> (result: Result<
        (),
        GatewayError,
    >)
        ensures
            final(self)@ == completed(old(self)@, validator@, outcome),
            result == match outcome.connection() {
                Some(_) => Ok::<(), GatewayError>(()),
                None => Err::<(), _>(GatewayError::PeerDialFailed),
            },
    {
        match outcome {
            DialOutcome::EarlyData(connection) => {
                table_insert(
                    &mut self.connections,
                    validator.to_owned(),
                    PoolEntry { conn: Some(connection) },
                );
                Ok(())
            },
            DialOutcome::Handshake(connection) => {
                table_insert(
                    &mut self.connections,
                    validator.to_owned(),
                    PoolEntry { conn: Some(connection) },
                );
                Ok(())
            },
            DialOutcome::Failed => {
                table_remove(&mut self.connections, validator);
                Err(GatewayError::PeerDialFailed)
            },
        }
    }

    /// The leaders among `leaders` to which the pool holds a live
    /// connection, each with that connection. Does not dial: a leader
    /// without a live connection is passed over.
    pub fn fanout_targets(&mut self, leaders: &Vec<(String, String, u64)>) -> (targets: Vec<
        (String, String, quinn::Connection),
    >)
        ensures
            exists|open: Seq<bool>| #[trigger]
                open.len() == leaders@.len() && (target_model(targets@), final(self)@)
                    == fanout_step(old(self)@, leader_model(leaders@), open),
    {
        let mut targets: Vec<(String, String, quinn::Connection)> = Vec::new();
        let ghost model = leader_model(leaders@);
        let ghost mut open: Seq<bool> = Seq::empty();
        let mut place: usize = 0;
        assert(model.subrange(0, 0) == Seq::<Leader>::empty());
        assert(target_model(targets@) == Seq::<Target>::empty());
        while place < leaders.len()
            invariant
                place <= leaders.len(),
                model == leader_model(leaders@),
                open.len() == place,
                (target_model(targets@), self@) == fanout_step(
                    old(self)@,
                    model.subrange(0, place as int),
                    open,
                ),
            decreases leaders.len() - place,
        {
            let ghost earlier = target_model(targets@);
            let ghost pool = self@;
            let ghost taken = model.subrange(0, place + 1);
            let found = self.get_connection(leaders[place].1.as_str());
            let ghost observed = choose|observed: bool|
                found == Ok::<_, GatewayError>(
                    #[trigger] lookup(pool, leaders@[place as int].1@, observed),
                ) && self@ == after_lookup(pool, leaders@[place as int].1@, observed);
            match found {
                Ok(Some(connection)) => {
                    targets.push((leaders[place].0.clone(), leaders[place].1.clone(), connection));
                    assert(target_model(targets@) == earlier.push(
                        (leaders@[place as int].0@, leaders@[place as int].1@, connection),
                    ));
                },
                _ => {},
            }
            proof {
                assert(taken.drop_last() == model.subrange(0, place as int));
                assert(taken.last() == model[place as int]);
                assert(model[place as int].1 == leaders@[place as int].1@);
                assert(open.push(observed).drop_last() == open);
                assert(open.push(observed).last() == observed);
                open = open.push(observed);
            }
            place += 1;
        }
        assert(model.subrange(0, place as int) == model);
        targets
    }

    /// What the writes to the targets amount to: a confirmation if one of
    /// them went through, else the failure of them all with the text of the
    /// last one.
    pub fn send_transaction(outcomes: &Vec<Result<(), String>>, latency: Duration) -> (result:
        Result<DeliveryConfirmation, GatewayError>)
        ensures
            match result {
                Ok(confirmation) => {
                    &&& any_delivered(outcomes@)
                    &&& confirmation.delivered
                    &&& confirmation.latency == latency
                },
                Err(error) => {
                    &&& !any_delivered(outcomes@)
                    &&& error matches GatewayError::AllPeersFailed(text)
                    &&& text@ == last_failure(outcomes@)
                },
            },
    {
        let mut last_error: String = String::from_str("Failed sending TX");
        let mut place: usize = 0;
        assert(outcomes@.subrange(0, 0) == Seq::<Result<(), String>>::empty());
        while place < outcomes.len()
            invariant
                place <= outcomes.len(),
                !any_delivered(outcomes@.subrange(0, place as int)),
                last_error@ == last_failure(outcomes@.subrange(0, place as int)),
            decreases outcomes.len() - place,
        {
            let ghost taken = outcomes@.subrange(0, place + 1);
            match &outcomes[place] {
                Ok(_) => {
                    assert(outcomes@[place as int] is Ok);
                    return Ok(DeliveryConfirmation { delivered: true, latency });
                },
                Err(text) => {
                    last_error = text.clone();
                },
            }
            proof {
                assert(taken.drop_last() == outcomes@.subrange(0, place as int));
                assert(taken.last() == outcomes@[place as int]);
                assert forall|i: int| 0 <= i < taken.len() implies !((#[trigger] taken[i]) is Ok) by {
                    if i < place {
                        assert(outcomes@.subrange(0, place as int)[i] == taken[i]);
                    }
                }
            }
            place += 1;
        }
        assert(outcomes@.subrange(0, place as int) == outcomes@);
        Err(GatewayError::AllPeersFailed(last_error))
    }

    /// Returns the number of entries in the pool.
    pub fn connection_count(&self) -> (count: usize)
        ensures
            count == self@.len(),
    {
        table_len(&self.connections)
    }

    /// Closes every connection and empties the pool.
    pub fn close_all(&mut self)
        ensures
            final(self)@ == empty_pool(),
    {
        let entries = table_entries(&self.connections);
        let mut place: usize = 0;
        while place < entries.len()
            invariant
                place <= entries.len(),
            decreases entries.len() - place,
        {
            match &entries[place].conn {
                Some(connection) => {
                    close_connection(connection, SHUTDOWN_ERROR_CODE, "shutdown".as_bytes());
                },
                None => {},
            }
            place += 1;
        }
        table_clear(&mut self.connections);
    }
}

} // verus!

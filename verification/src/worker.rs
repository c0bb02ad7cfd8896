use vstd::prelude::*;

use crate::model::{Command, Outcome, ValueModel};

verus! {

/// Identifier of one opened store connection. Every successful connect gets a
/// fresh identifier, so a reconnect is distinguishable from the connection it
/// replaces.
#[derive(Debug, Clone, Copy, PartialEq, Eq, Structural)]
pub struct ConnId {
    pub id: u64,
}

/// Whether the worker currently holds a store connection. Owned solely by the
/// worker; it starts `Disconnected` and changes only on the outcome of a
/// `Connect` command.
#[derive(Debug, Clone, Copy, PartialEq, Eq, Structural)]
pub enum ConnectionState {
    Disconnected,
    Connected { conn: ConnId },
}

/// Where the worker stands inside the one command it is processing. A new
/// command may begin only at `Idle`, so the worker never has two gateway calls
/// outstanding at once.
#[derive(Debug, Clone, Copy, PartialEq, Eq, Structural)]
pub enum Phase {
    /// No command is in flight.
    Idle,
    /// A connect attempt is outstanding.
    AwaitConnect,
    /// The key enumeration that follows a successful connect is outstanding.
    AwaitInitialKeys,
    /// A key enumeration for `RefreshKeys` is outstanding.
    AwaitKeys,
    /// A value fetch for `SelectValue` is outstanding.
    AwaitValue,
}

/// One blocking call the worker asks the gateway to perform. The worker issues
/// at most one at a time and waits for its reply before anything else.
#[derive(Debug, PartialEq)]
pub enum GatewayCall {
    DoConnect { address: String, port: u16, database: i64 },
    DoListKeys { conn: ConnId },
    DoGetValue { conn: ConnId, key: String },
}

/// What the gateway reported back for the outstanding call.
#[derive(Debug, PartialEq)]
pub enum GatewayReply {
    /// The connect attempt opened a session.
    Opened,
    /// The connect attempt failed (unreachable, refused, bad database).
    Refused,
    /// Key enumeration succeeded with these keys.
    Keys(Vec<String>),
    /// The value fetch completed (`Absent` when the key does not exist).
    Value(ValueModel),
    /// An I/O error on a key enumeration or value fetch.
    IoFailed,
}

/// What the worker decided: either publish these outcomes, in order, and move
/// on, or perform one gateway call and report its reply.
#[derive(Debug, PartialEq)]
pub enum Step {
    Emit(Vec<Outcome>),
    Call(GatewayCall),
}

/// The decision core of the loop that owns the store connection: it takes each
/// command in arrival order and runs it to completion before the next, keeping
/// the connection state across transient failures.
pub struct Worker {
    pub state: ConnectionState,
    pub phase: Phase,
    pub next_conn: u64,
}

/// Does this reply answer the call that this phase has outstanding?
pub open spec fn reply_matches(phase: Phase, reply: GatewayReply) -> bool {
    match phase {
        Phase::Idle => false,
        Phase::AwaitConnect => reply is Opened || reply is Refused,
        Phase::AwaitInitialKeys => reply is Keys || reply is IoFailed,
        Phase::AwaitKeys => reply is Keys || reply is IoFailed,
        Phase::AwaitValue => reply is Value || reply is IoFailed,
    }
}

impl Worker {
    /// Connection identifiers already handed out stay below `next_conn`, and a
    /// call can only be outstanding on a connection the worker holds.
    pub open spec fn wf(self) -> bool {
        &&& (self.state matches ConnectionState::Connected { conn } ==> conn.id < self.next_conn)
        &&& ((self.phase is AwaitInitialKeys || self.phase is AwaitKeys || self.phase
            is AwaitValue) ==> self.state is Connected)
    }

    /// A fresh worker: no connection, no command in flight.
    pub fn new() -> (w: Worker)
        ensures
            w.wf(),
            w.state is Disconnected,
            w.phase is Idle,
            w.next_conn == 0,
    {
        Worker { state: ConnectionState::Disconnected, phase: Phase::Idle, next_conn: 0 }
    }

    /// Start processing one command. Refreshing or selecting while disconnected
    /// degrades to an immediate outcome with no gateway call at all; otherwise
    /// exactly one gateway call is issued, on the connection currently held.
    pub fn begin(&mut self, cmd: Command) -> (s: Step)
        requires
            old(self).wf(),
            old(self).phase is Idle,
        ensures
            final(self).wf(),
            final(self).state == old(self).state,
            final(self).next_conn == old(self).next_conn,
            (cmd matches Command::Connect { address, port, database } ==> final(self).phase
                is AwaitConnect && s == Step::Call(
                GatewayCall::DoConnect { address, port, database },
            )),
            (cmd is RefreshKeys && old(self).state is Disconnected ==> final(self).phase is Idle && (
            s matches Step::Emit(outs) && outs@.len() == 1 && (outs@[0]
                matches Outcome::KeysUpdated(ks) && ks@.len() == 0))),
            (old(self).state matches ConnectionState::Connected { conn } ==> (cmd is RefreshKeys
                ==> final(self).phase is AwaitKeys && s == Step::Call(GatewayCall::DoListKeys { conn }))),
            (cmd is SelectValue && old(self).state is Disconnected ==> final(self).phase is Idle && (
            s matches Step::Emit(outs) && outs@.len() == 1 && outs@[0] == Outcome::ValueSelected(
                ValueModel::Absent,
            ))),
            (cmd matches Command::SelectValue { key } ==> (old(self).state
                matches ConnectionState::Connected { conn } ==> final(self).phase is AwaitValue && s
                == Step::Call(GatewayCall::DoGetValue { conn, key }))),
    {
        match cmd {
            Command::Connect { address, port, database } => {
                self.phase = Phase::AwaitConnect;
                Step::Call(GatewayCall::DoConnect { address, port, database })
            },
            Command::RefreshKeys => {
                match self.state {
                    ConnectionState::Disconnected => {
                        let mut outs: Vec<Outcome> = Vec::new();
                        outs.push(Outcome::KeysUpdated(Vec::new()));
                        Step::Emit(outs)
                    },
                    ConnectionState::Connected { conn } => {
                        self.phase = Phase::AwaitKeys;
                        Step::Call(GatewayCall::DoListKeys { conn })
                    },
                }
            },
            Command::SelectValue { key } => {
                match self.state {
                    ConnectionState::Disconnected => {
                        let mut outs: Vec<Outcome> = Vec::new();
                        outs.push(Outcome::ValueSelected(ValueModel::Absent));
                        Step::Emit(outs)
                    },
                    ConnectionState::Connected { conn } => {
                        self.phase = Phase::AwaitValue;
                        Step::Call(GatewayCall::DoGetValue { conn, key })
                    },
                }
            },
        }
    }

    /// Finish (or continue) the command in flight, given the gateway's reply.
    /// A successful connect takes a fresh connection identifier and chains into
    /// the initial key enumeration; a failed connect drops any held connection.
    /// Everything else leaves the connection state untouched — in particular an
    /// I/O failure on a refresh or fetch only degrades that one command's
    /// outcome.
    pub fn on_reply(&mut self, reply: GatewayReply) -> (s: Step)
        requires
            old(self).wf(),
            reply_matches(old(self).phase, reply),
            old(self).next_conn < u64::MAX,
        ensures
            final(self).wf(),
            !(old(self).phase is AwaitConnect) ==> final(self).state == old(self).state && final(self).next_conn
                == old(self).next_conn,
            !(old(self).phase is AwaitConnect && reply is Opened) ==> final(self).phase is Idle,
            (old(self).phase is AwaitConnect && reply is Opened ==> (final(self).state
                matches ConnectionState::Connected { conn } && conn.id == old(self).next_conn
                && final(self).next_conn == old(self).next_conn + 1 && final(self).phase is AwaitInitialKeys && s
                == Step::Call(GatewayCall::DoListKeys { conn }))),
            (old(self).phase is AwaitConnect && reply is Refused ==> final(self).state is Disconnected
                && final(self).next_conn == old(self).next_conn && (s matches Step::Emit(outs)
                && outs@.len() == 1 && outs@[0] == Outcome::ConnectionFailed)),
            (reply matches GatewayReply::Keys(ks) ==> (old(self).phase is AwaitInitialKeys ==> (
            s matches Step::Emit(outs) && outs@.len() == 2 && outs@[0] == Outcome::KeysUpdated(ks)
                && outs@[1] == Outcome::ConnectionEstablished))),
            (old(self).phase is AwaitInitialKeys && reply is IoFailed ==> (s matches Step::Emit(outs)
                && outs@.len() == 2 && outs@[0] == Outcome::RefreshFailed && outs@[1]
                == Outcome::ConnectionEstablished)),
            (reply matches GatewayReply::Keys(ks) ==> (old(self).phase is AwaitKeys ==> (
            s matches Step::Emit(outs) && outs@.len() == 1 && outs@[0] == Outcome::KeysUpdated(
                ks,
            )))),
            (old(self).phase is AwaitKeys && reply is IoFailed ==> (s matches Step::Emit(outs)
                && outs@.len() == 1 && outs@[0] == Outcome::RefreshFailed)),
            (reply matches GatewayReply::Value(v) ==> (old(self).phase is AwaitValue ==> (
            s matches Step::Emit(outs) && outs@.len() == 1 && outs@[0] == Outcome::ValueSelected(
                v,
            )))),
            (old(self).phase is AwaitValue && reply is IoFailed ==> (s matches Step::Emit(outs)
                && outs@.len() == 1 && outs@[0] == Outcome::ValueFetchFailed)),
    {
        match self.phase {
            Phase::AwaitConnect => {
                match reply {
                    GatewayReply::Opened => {
                        let conn = ConnId { id: self.next_conn };
                        self.next_conn = self.next_conn + 1;
                        self.state = ConnectionState::Connected { conn };
                        self.phase = Phase::AwaitInitialKeys;
                        Step::Call(GatewayCall::DoListKeys { conn })
                    },
                    _ => {
                        self.state = ConnectionState::Disconnected;
                        self.phase = Phase::Idle;
                        let mut outs: Vec<Outcome> = Vec::new();
                        outs.push(Outcome::ConnectionFailed);
                        Step::Emit(outs)
                    },
                }
            },
            Phase::AwaitInitialKeys => {
                self.phase = Phase::Idle;
                let mut outs: Vec<Outcome> = Vec::new();
                match reply {
                    GatewayReply::Keys(ks) => outs.push(Outcome::KeysUpdated(ks)),
                    _ => outs.push(Outcome::RefreshFailed),
                }
                outs.push(Outcome::ConnectionEstablished);
                Step::Emit(outs)
            },
            Phase::AwaitKeys => {
                self.phase = Phase::Idle;
                let mut outs: Vec<Outcome> = Vec::new();
                match reply {
                    GatewayReply::Keys(ks) => outs.push(Outcome::KeysUpdated(ks)),
                    _ => outs.push(Outcome::RefreshFailed),
                }
                Step::Emit(outs)
            },
            Phase::AwaitValue => {
                self.phase = Phase::Idle;
                let mut outs: Vec<Outcome> = Vec::new();
                match reply {
                    GatewayReply::Value(v) => outs.push(Outcome::ValueSelected(v)),
                    _ => outs.push(Outcome::ValueFetchFailed),
                }
                Step::Emit(outs)
            },
            Phase::Idle => vstd::pervasive::unreached(),
        }
    }
}

/// Reconnecting replaces the connection: when a connect attempt succeeds while
/// a connection is already held, the worker ends up holding a connection
/// identifier different from the old one — so every gateway call it issues from
/// then on (which `begin` makes on the held identifier) uses the new
/// connection, never the replaced one.
pub proof fn lemma_reconnect_replaces(before: Worker, after: Worker, c0: ConnId, c1: ConnId)
    requires
        before.wf(),
        before.state == (ConnectionState::Connected { conn: c0 }),
        after.state == (ConnectionState::Connected { conn: c1 }),
        c1.id == before.next_conn,
    ensures
        c1 != c0,
{
}

/// A refresh or fetch can only be in flight while a connection is held; since
/// `on_reply` keeps the connection state untouched in every phase but
/// `AwaitConnect`, a transient I/O failure on a refresh or fetch leaves the
/// worker `Connected` exactly as it was, and a later refresh runs on that same
/// connection without any new connect.
pub proof fn lemma_transient_failure_keeps_connection(w: Worker)
    requires
        w.wf(),
        w.phase is AwaitKeys || w.phase is AwaitValue || w.phase is AwaitInitialKeys,
    ensures
        w.state is Connected,
{
}

} // verus!

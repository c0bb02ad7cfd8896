use redis_viewer::model::{Command, Outcome, ValueModel};
use redis_viewer::worker::{ConnId, ConnectionState, GatewayCall, GatewayReply, Step, Worker};

fn strings(items: &[&str]) -> Vec<String> {
    items.iter().map(|s| s.to_string()).collect()
}

fn connect_cmd(address: &str, port: u16, database: i64) -> Command {
    Command::Connect { address: address.to_string(), port, database }
}

/// Drive a worker through a successful connect and return the connection id
/// the worker now uses, plus the outcomes it emitted.
fn connect_ok(w: &mut Worker, keys: &[&str]) -> (ConnId, Vec<Outcome>) {
    let step = w.begin(connect_cmd("127.0.0.1", 6379, 0));
    assert!(matches!(
        step,
        Step::Call(GatewayCall::DoConnect { port: 6379, database: 0, .. })
    ));
    let step = w.on_reply(GatewayReply::Opened);
    let conn = match step {
        Step::Call(GatewayCall::DoListKeys { conn }) => conn,
        other => panic!("expected the initial key enumeration, got {:?}", other),
    };
    let step = w.on_reply(GatewayReply::Keys(strings(keys)));
    match step {
        Step::Emit(outs) => (conn, outs),
        other => panic!("expected emitted outcomes, got {:?}", other),
    }
}

#[test]
fn disconnected_refresh_emits_empty_keys_without_any_call() {
    let mut w = Worker::new();
    let step = w.begin(Command::RefreshKeys);
    match step {
        Step::Emit(outs) => {
            assert_eq!(outs, vec![Outcome::KeysUpdated(Vec::new())]);
        },
        Step::Call(call) => panic!("no gateway call may happen here, got {:?}", call),
    }
    assert!(matches!(w.state, ConnectionState::Disconnected));
}

#[test]
fn disconnected_select_emits_absent_without_any_call() {
    let mut w = Worker::new();
    let step = w.begin(Command::SelectValue { key: "k".to_string() });
    match step {
        Step::Emit(outs) => {
            assert_eq!(outs, vec![Outcome::ValueSelected(ValueModel::Absent)]);
        },
        Step::Call(call) => panic!("no gateway call may happen here, got {:?}", call),
    }
}

#[test]
fn connect_then_refresh_emits_keys_before_established() {
    let mut w = Worker::new();
    let (_, outs) = connect_ok(&mut w, &["a", "b:c"]);
    assert_eq!(
        outs,
        vec![
            Outcome::KeysUpdated(strings(&["a", "b:c"])),
            Outcome::ConnectionEstablished,
        ]
    );
    assert!(matches!(w.state, ConnectionState::Connected { .. }));
}

#[test]
fn failed_connect_emits_connection_failed_and_disconnects() {
    let mut w = Worker::new();
    let step = w.begin(connect_cmd("10.0.0.1", 1, 3));
    assert!(matches!(step, Step::Call(GatewayCall::DoConnect { .. })));
    let step = w.on_reply(GatewayReply::Refused);
    match step {
        Step::Emit(outs) => assert_eq!(outs, vec![Outcome::ConnectionFailed]),
        other => panic!("expected outcomes, got {:?}", other),
    }
    assert!(matches!(w.state, ConnectionState::Disconnected));
    // The worker now behaves exactly as when it never connected.
    let step = w.begin(Command::RefreshKeys);
    match step {
        Step::Emit(outs) => assert_eq!(outs, vec![Outcome::KeysUpdated(Vec::new())]),
        other => panic!("expected outcomes, got {:?}", other),
    }
}

#[test]
fn failed_connect_while_connected_drops_the_connection() {
    let mut w = Worker::new();
    let _ = connect_ok(&mut w, &["a"]);
    let step = w.begin(connect_cmd("10.9.9.9", 2, 0));
    assert!(matches!(step, Step::Call(GatewayCall::DoConnect { .. })));
    let step = w.on_reply(GatewayReply::Refused);
    match step {
        Step::Emit(outs) => assert_eq!(outs, vec![Outcome::ConnectionFailed]),
        other => panic!("expected outcomes, got {:?}", other),
    }
    assert!(matches!(w.state, ConnectionState::Disconnected));
}

#[test]
fn select_after_expiry_yields_absent_not_an_error() {
    let mut w = Worker::new();
    let (conn, _) = connect_ok(&mut w, &["ghost"]);
    let step = w.begin(Command::SelectValue { key: "ghost".to_string() });
    match step {
        Step::Call(GatewayCall::DoGetValue { conn: c, key }) => {
            assert_eq!(c, conn);
            assert_eq!(key, "ghost");
        },
        other => panic!("expected a value fetch, got {:?}", other),
    }
    // The key vanished between enumeration and fetch: the gateway reports the
    // value as absent, which is a legitimate result, not a failure.
    let step = w.on_reply(GatewayReply::Value(ValueModel::Absent));
    match step {
        Step::Emit(outs) => {
            assert_eq!(outs, vec![Outcome::ValueSelected(ValueModel::Absent)]);
        },
        other => panic!("expected outcomes, got {:?}", other),
    }
    assert!(matches!(w.state, ConnectionState::Connected { .. }));
}

#[test]
fn select_delivers_each_value_kind() {
    let mut w = Worker::new();
    let _ = connect_ok(&mut w, &["h"]);
    let fetched = ValueModel::FieldMap(vec![
        ("f1".to_string(), "v1".to_string()),
        ("f2".to_string(), "v2".to_string()),
    ]);
    let _ = w.begin(Command::SelectValue { key: "h".to_string() });
    let step = w.on_reply(GatewayReply::Value(fetched));
    match step {
        Step::Emit(outs) => {
            assert_eq!(
                outs,
                vec![Outcome::ValueSelected(ValueModel::FieldMap(vec![
                    ("f1".to_string(), "v1".to_string()),
                    ("f2".to_string(), "v2".to_string()),
                ]))]
            );
        },
        other => panic!("expected outcomes, got {:?}", other),
    }
}

#[test]
fn reconnect_replaces_the_connection() {
    let mut w = Worker::new();
    let (first, _) = connect_ok(&mut w, &["a"]);
    let (second, _) = connect_ok(&mut w, &["a"]);
    assert_ne!(first, second);
    // All subsequent gateway work names the second connection.
    let step = w.begin(Command::RefreshKeys);
    match step {
        Step::Call(GatewayCall::DoListKeys { conn }) => assert_eq!(conn, second),
        other => panic!("expected a key enumeration, got {:?}", other),
    }
    let _ = w.on_reply(GatewayReply::Keys(strings(&["a"])));
}

#[test]
fn transient_refresh_failure_keeps_the_connection() {
    let mut w = Worker::new();
    let (conn, _) = connect_ok(&mut w, &["a"]);
    let _ = w.begin(Command::RefreshKeys);
    let step = w.on_reply(GatewayReply::IoFailed);
    match step {
        Step::Emit(outs) => assert_eq!(outs, vec![Outcome::RefreshFailed]),
        other => panic!("expected outcomes, got {:?}", other),
    }
    // Still connected: a later refresh succeeds on the same connection,
    // without any new connect.
    let step = w.begin(Command::RefreshKeys);
    match step {
        Step::Call(GatewayCall::DoListKeys { conn: c }) => assert_eq!(c, conn),
        other => panic!("expected a key enumeration, got {:?}", other),
    }
    let step = w.on_reply(GatewayReply::Keys(strings(&["a", "b"])));
    match step {
        Step::Emit(outs) => {
            assert_eq!(outs, vec![Outcome::KeysUpdated(strings(&["a", "b"]))]);
        },
        other => panic!("expected outcomes, got {:?}", other),
    }
}

#[test]
fn transient_fetch_failure_keeps_the_connection() {
    let mut w = Worker::new();
    let _ = connect_ok(&mut w, &["a"]);
    let _ = w.begin(Command::SelectValue { key: "a".to_string() });
    let step = w.on_reply(GatewayReply::IoFailed);
    match step {
        Step::Emit(outs) => assert_eq!(outs, vec![Outcome::ValueFetchFailed]),
        other => panic!("expected outcomes, got {:?}", other),
    }
    assert!(matches!(w.state, ConnectionState::Connected { .. }));
}

#[test]
fn refresh_failure_after_connect_still_establishes() {
    let mut w = Worker::new();
    let step = w.begin(connect_cmd("127.0.0.1", 6379, 0));
    assert!(matches!(step, Step::Call(GatewayCall::DoConnect { .. })));
    let step = w.on_reply(GatewayReply::Opened);
    assert!(matches!(step, Step::Call(GatewayCall::DoListKeys { .. })));
    let step = w.on_reply(GatewayReply::IoFailed);
    match step {
        Step::Emit(outs) => {
            assert_eq!(outs, vec![Outcome::RefreshFailed, Outcome::ConnectionEstablished]);
        },
        other => panic!("expected outcomes, got {:?}", other),
    }
    assert!(matches!(w.state, ConnectionState::Connected { .. }));
}

/// A gateway stub that fails the test if a second call starts while one is
/// still running, as a reentrancy guard would in a mock. Driving the worker
/// through whole commands can never trip it: the worker issues one call at a
/// time and waits for its reply.
struct SingleFlightGateway {
    busy: bool,
    calls: usize,
}

impl SingleFlightGateway {
    fn perform(&mut self, call: &GatewayCall) -> GatewayReply {
        assert!(!self.busy, "two gateway calls overlap");
        self.busy = true;
        self.calls += 1;
        let reply = match call {
            GatewayCall::DoConnect { .. } => GatewayReply::Opened,
            GatewayCall::DoListKeys { .. } => GatewayReply::Keys(strings(&["a", "b:c"])),
            GatewayCall::DoGetValue { .. } => {
                GatewayReply::Value(ValueModel::Scalar("v".to_string()))
            },
        };
        self.busy = false;
        reply
    }
}

#[test]
fn gateway_calls_never_overlap() {
    let mut gw = SingleFlightGateway { busy: false, calls: 0 };
    let mut w = Worker::new();
    let cmds = vec![
        connect_cmd("127.0.0.1", 6379, 0),
        Command::RefreshKeys,
        Command::SelectValue { key: "a".to_string() },
        connect_cmd("127.0.0.1", 6379, 1),
    ];
    for cmd in cmds {
        let mut step = w.begin(cmd);
        loop {
            match step {
                Step::Emit(_) => break,
                Step::Call(call) => {
                    let reply = gw.perform(&call);
                    step = w.on_reply(reply);
                },
            }
        }
    }
    assert_eq!(gw.calls, 6);
}

use runotepad::{
    after_read, output_frame, Action, ClientMessage, Gateway, ReadOutcome, ReadStep,
    ServerMessage, SessionTable,
};

fn create(id: Option<&str>) -> ClientMessage {
    ClientMessage::Create { id: id.map(|s| s.to_string()) }
}

fn input(id: &str, data: &str) -> ClientMessage {
    ClientMessage::Input { session_id: id.to_string(), data: data.to_string() }
}

fn close(id: &str) -> ClientMessage {
    ClientMessage::Close { session_id: id.to_string() }
}

fn open(g: &mut Gateway<u32>, id: &str, handle: u32) -> u64 {
    match g.dispatch(create(Some(id)), String::new()) {
        Action::Spawn { session_id } => {
            assert_eq!(session_id, id);
            let (reply, serial, back) = g.spawned(session_id, Ok(handle));
            assert!(matches!(reply, ServerMessage::Created { .. }));
            assert!(back.is_none());
            serial.unwrap()
        }
        _ => panic!("expected a spawn"),
    }
}

#[test]
fn registry_register_lookup_remove() {
    let mut t: SessionTable<u32> = SessionTable::new();
    assert!(t.register("a".to_string(), 1).is_ok());
    assert!(t.register("b".to_string(), 2).is_ok());
    assert_eq!(t.register("a".to_string(), 3), Err(3));
    assert_eq!(t.lookup("a"), Some(&1));
    assert_eq!(t.lookup("b"), Some(&2));
    assert_eq!(t.lookup("c"), None);
    assert!(t.contains("b"));
    assert_eq!(t.remove("a"), Some(1));
    assert_eq!(t.remove("a"), None);
    assert!(!t.contains("a"));
    let mut all = t.drain();
    all.sort();
    assert_eq!(all, vec![("b".to_string(), 2)]);
    assert!(!t.contains("b"));
}

#[test]
fn create_uses_client_id_else_generated() {
    let mut g: Gateway<u32> = Gateway::new();
    match g.dispatch(create(Some("mine")), "gen".to_string()) {
        Action::Spawn { session_id } => assert_eq!(session_id, "mine"),
        _ => panic!("expected a spawn"),
    }
    match g.dispatch(create(None), "gen".to_string()) {
        Action::Spawn { session_id } => assert_eq!(session_id, "gen"),
        _ => panic!("expected a spawn"),
    }
}

#[test]
fn create_without_id_generates_fresh_ids() {
    let mut g: Gateway<u32> = Gateway::new();
    let mut ids = Vec::new();
    for h in 0..3 {
        match g.on_frame(create(None)) {
            Action::Spawn { session_id } => {
                assert!(!session_id.is_empty());
                let (reply, _, _) = g.spawned(session_id.clone(), Ok(h));
                assert!(matches!(reply, ServerMessage::Created { .. }));
                ids.push(session_id);
            }
            _ => panic!("expected a spawn"),
        }
    }
    ids.sort();
    ids.dedup();
    assert_eq!(ids.len(), 3);
}

#[test]
fn created_ids_unique_among_live() {
    let mut g: Gateway<u32> = Gateway::new();
    open(&mut g, "a", 1);
    match g.dispatch(create(Some("a")), String::new()) {
        Action::Reply { message: ServerMessage::Error { message } } => {
            assert_eq!(message, "session id already in use: a")
        }
        _ => panic!("expected an error"),
    }
    let (reply, serial, back) = g.spawned("a".to_string(), Ok(9));
    assert!(matches!(reply, ServerMessage::Error { .. }));
    assert_eq!(serial, None);
    assert_eq!(back, Some(9));
    assert_eq!(g.handle("a"), Some(&1));
}

#[test]
fn spawn_failure_reports_error() {
    let mut g: Gateway<u32> = Gateway::new();
    let (reply, serial, back) = g.spawned("a".to_string(), Err("no pty".to_string()));
    match reply {
        ServerMessage::Error { message } => assert_eq!(message, "no pty"),
        _ => panic!("expected an error"),
    }
    assert_eq!(serial, None);
    assert_eq!(back, None);
    assert!(!g.is_live("a"));
}

#[test]
fn input_goes_to_its_session_in_order() {
    let mut g: Gateway<u32> = Gateway::new();
    open(&mut g, "a", 1);
    open(&mut g, "b", 2);
    let frames = vec![input("a", "ec"), input("b", "ls"), input("a", "ho\n"), input("c", "x")];
    let mut to_a = String::new();
    let mut to_b = String::new();
    let mut ignored = 0;
    for f in frames {
        match g.dispatch(f, String::new()) {
            Action::Write { session_id, data } => {
                if session_id == "a" {
                    to_a.push_str(&data)
                } else {
                    to_b.push_str(&data)
                }
            }
            Action::Ignore => ignored += 1,
            _ => panic!("unexpected action"),
        }
    }
    assert_eq!(to_a, "echo\n");
    assert_eq!(to_b, "ls");
    assert_eq!(ignored, 1);
}

#[test]
fn output_chunks_keep_their_order() {
    let id = "a".to_string();
    let chunks: Vec<&[u8]> = vec![b"one ", b"two ", b"three"];
    let mut seen = String::new();
    for c in chunks {
        match after_read(&id, &ReadOutcome::Bytes(c.to_vec())) {
            ReadStep::Forward(frame) => {
                let v: serde_json::Value = serde_json::from_str(&frame).unwrap();
                assert_eq!(v["session_id"], "a");
                seen.push_str(v["data"].as_str().unwrap());
            }
            ReadStep::Finish => panic!("unexpected end"),
        }
    }
    assert_eq!(seen, "one two three");
    assert!(matches!(after_read(&id, &ReadOutcome::Bytes(Vec::new())), ReadStep::Finish));
    assert!(matches!(after_read(&id, &ReadOutcome::Failed), ReadStep::Finish));
}

#[test]
fn output_frame_replaces_invalid_bytes() {
    let frame = output_frame(&"s".to_string(), &[b'o', b'k', 0xff]);
    assert_eq!(frame, "{\"type\":\"output\",\"session_id\":\"s\",\"data\":\"ok\u{fffd}\"}");
}

#[test]
fn resize_unknown_session_is_ignored() {
    let mut g: Gateway<u32> = Gateway::new();
    let r = g.dispatch(
        ClientMessage::Resize { session_id: "nope".to_string(), cols: 100, rows: 30 },
        String::new(),
    );
    assert!(matches!(r, Action::Ignore));
    open(&mut g, "a", 1);
    match g.dispatch(
        ClientMessage::Resize { session_id: "a".to_string(), cols: 100, rows: 30 },
        String::new(),
    ) {
        Action::Resize { session_id, cols, rows } => {
            assert_eq!((session_id.as_str(), cols, rows), ("a", 100, 30))
        }
        _ => panic!("expected a resize"),
    }
}

#[test]
fn close_twice_sends_one_closed() {
    let mut g: Gateway<u32> = Gateway::new();
    open(&mut g, "a", 5);
    match g.dispatch(close("a"), String::new()) {
        Action::Release { handle, reply } => {
            assert_eq!(handle, 5);
            assert_eq!(reply.encode(), r#"{"type":"closed","session_id":"a"}"#);
        }
        _ => panic!("expected a release"),
    }
    assert!(matches!(g.dispatch(close("a"), String::new()), Action::Ignore));
    assert!(matches!(g.dispatch(close("never"), String::new()), Action::Ignore));
}

#[test]
fn shell_exit_closes_once() {
    let mut g: Gateway<u32> = Gateway::new();
    let serial = open(&mut g, "a", 5);
    match g.read_ended("a".to_string(), serial) {
        Some((handle, reply)) => {
            assert_eq!(handle, 5);
            assert_eq!(reply.encode(), r#"{"type":"closed","session_id":"a"}"#);
        }
        None => panic!("expected closed"),
    }
    assert!(!g.is_live("a"));
    assert!(g.read_ended("a".to_string(), serial).is_none());
    assert!(matches!(g.dispatch(close("a"), String::new()), Action::Ignore));
}

#[test]
fn stale_read_loop_leaves_new_session() {
    let mut g: Gateway<u32> = Gateway::new();
    let first = open(&mut g, "a", 1);
    assert!(matches!(g.dispatch(close("a"), String::new()), Action::Release { .. }));
    let second = open(&mut g, "a", 2);
    assert_ne!(first, second);
    assert!(g.read_ended("a".to_string(), first).is_none());
    assert_eq!(g.handle("a"), Some(&2));
}

#[test]
fn disconnect_releases_every_session() {
    let mut g: Gateway<u32> = Gateway::new();
    open(&mut g, "a", 1);
    open(&mut g, "b", 2);
    open(&mut g, "c", 3);
    let mut all = g.disconnect();
    all.sort();
    assert_eq!(
        all,
        vec![("a".to_string(), 1), ("b".to_string(), 2), ("c".to_string(), 3)]
    );
    assert!(!g.is_live("a") && !g.is_live("b") && !g.is_live("c"));
    assert!(g.disconnect().is_empty());
}

#[test]
fn create_input_close_scenario() {
    let mut g: Gateway<u32> = Gateway::new();
    let id = match g.on_frame(create(None)) {
        Action::Spawn { session_id } => session_id,
        _ => panic!("expected a spawn"),
    };
    let (reply, serial, _) = g.spawned(id.clone(), Ok(1));
    assert_eq!(reply.encode(), format!("{{\"type\":\"created\",\"session_id\":\"{}\"}}", id));
    assert!(serial.is_some());
    match g.on_frame(input(&id, "echo hi\n")) {
        Action::Write { session_id, data } => {
            assert_eq!(session_id, id);
            assert_eq!(data, "echo hi\n");
        }
        _ => panic!("expected a write"),
    }
    let mut out = String::new();
    for chunk in [&b"echo hi\r\n"[..], &b"hi\r\n$ "[..]] {
        if let ReadStep::Forward(frame) = after_read(&id, &ReadOutcome::Bytes(chunk.to_vec())) {
            let v: serde_json::Value = serde_json::from_str(&frame).unwrap();
            assert_eq!(v["type"], "output");
            out.push_str(v["data"].as_str().unwrap());
        }
    }
    assert!(out.contains("hi"));
    match g.on_frame(close(&id)) {
        Action::Release { reply, .. } => assert_eq!(
            reply.encode(),
            format!("{{\"type\":\"closed\",\"session_id\":\"{}\"}}", id)
        ),
        _ => panic!("expected a release"),
    }
    assert!(matches!(g.on_frame(input(&id, "more\n")), Action::Ignore));
    assert!(matches!(g.on_frame(close(&id)), Action::Ignore));
}

use runotepad::{ClientMessage, DecodeError, Envelope, Field, FieldName, ServerMessage};

fn text(s: &str) -> Field {
    Field::Text(s.to_string())
}

fn envelope(kind: Field) -> Envelope {
    Envelope {
        kind,
        id: Field::Absent,
        session_id: Field::Absent,
        data: Field::Absent,
        cols: Field::Absent,
        rows: Field::Absent,
    }
}

#[test]
fn decode_create_without_id() {
    match ClientMessage::decode(envelope(text("create"))) {
        Ok(ClientMessage::Create { id: None }) => {}
        _ => panic!("expected a create without id"),
    }
}

#[test]
fn decode_create_with_null_id() {
    let mut e = envelope(text("create"));
    e.id = Field::Null;
    assert!(matches!(ClientMessage::decode(e), Ok(ClientMessage::Create { id: None })));
}

#[test]
fn decode_create_with_id() {
    let mut e = envelope(text("create"));
    e.id = text("abc");
    match ClientMessage::decode(e) {
        Ok(ClientMessage::Create { id: Some(id) }) => assert_eq!(id, "abc"),
        _ => panic!("expected a create with id"),
    }
}

#[test]
fn decode_create_with_numeric_id_fails() {
    let mut e = envelope(text("create"));
    e.id = Field::Unsigned(5);
    assert!(matches!(
        ClientMessage::decode(e),
        Err(DecodeError::InvalidField { field: FieldName::Id })
    ));
}

#[test]
fn decode_input() {
    let mut e = envelope(text("input"));
    e.session_id = text("s1");
    e.data = text("echo hi\n");
    match ClientMessage::decode(e) {
        Ok(ClientMessage::Input { session_id, data }) => {
            assert_eq!(session_id, "s1");
            assert_eq!(data, "echo hi\n");
        }
        _ => panic!("expected input"),
    }
}

#[test]
fn decode_input_without_data_fails() {
    let mut e = envelope(text("input"));
    e.session_id = text("s1");
    assert!(matches!(
        ClientMessage::decode(e),
        Err(DecodeError::InvalidField { field: FieldName::Data })
    ));
}

#[test]
fn decode_resize() {
    let mut e = envelope(text("resize"));
    e.session_id = text("s1");
    e.cols = Field::Unsigned(120);
    e.rows = Field::Unsigned(40);
    match ClientMessage::decode(e) {
        Ok(ClientMessage::Resize { session_id, cols, rows }) => {
            assert_eq!(session_id, "s1");
            assert_eq!(cols, 120);
            assert_eq!(rows, 40);
        }
        _ => panic!("expected resize"),
    }
}

#[test]
fn decode_resize_largest_and_too_large() {
    let mut e = envelope(text("resize"));
    e.session_id = text("s1");
    e.cols = Field::Unsigned(65535);
    e.rows = Field::Unsigned(65536);
    assert!(matches!(
        ClientMessage::decode(e),
        Err(DecodeError::InvalidField { field: FieldName::Rows })
    ));
    let mut e = envelope(text("resize"));
    e.session_id = text("s1");
    e.cols = Field::Other;
    e.rows = Field::Unsigned(1);
    assert!(matches!(
        ClientMessage::decode(e),
        Err(DecodeError::InvalidField { field: FieldName::Cols })
    ));
}

#[test]
fn decode_close() {
    let mut e = envelope(text("close"));
    e.session_id = text("s1");
    match ClientMessage::decode(e) {
        Ok(ClientMessage::Close { session_id }) => assert_eq!(session_id, "s1"),
        _ => panic!("expected close"),
    }
}

#[test]
fn decode_close_without_session_fails() {
    assert!(matches!(
        ClientMessage::decode(envelope(text("close"))),
        Err(DecodeError::InvalidField { field: FieldName::SessionId })
    ));
}

#[test]
fn decode_unknown_type_fails() {
    match ClientMessage::decode(envelope(text("explode"))) {
        Err(DecodeError::UnknownType { kind }) => assert_eq!(kind, "explode"),
        _ => panic!("expected an unknown type"),
    }
}

#[test]
fn decode_missing_type_fails() {
    assert!(matches!(
        ClientMessage::decode(envelope(Field::Absent)),
        Err(DecodeError::MissingType)
    ));
    assert!(matches!(
        ClientMessage::decode(envelope(Field::Unsigned(1))),
        Err(DecodeError::MissingType)
    ));
}

#[test]
fn encode_created() {
    let m = ServerMessage::Created { session_id: "abc".to_string() };
    assert_eq!(m.encode(), r#"{"type":"created","session_id":"abc"}"#);
}

#[test]
fn encode_closed() {
    let m = ServerMessage::Closed { session_id: "abc".to_string() };
    assert_eq!(m.encode(), r#"{"type":"closed","session_id":"abc"}"#);
}

#[test]
fn encode_error() {
    let m = ServerMessage::Error { message: "no shell".to_string() };
    assert_eq!(m.encode(), r#"{"type":"error","message":"no shell"}"#);
}

#[test]
fn encode_output_escapes() {
    let m = ServerMessage::Output {
        session_id: "s\"1".to_string(),
        data: "a\\b\n\r\t\u{8}\u{c}\u{1}\u{1f}é".to_string(),
    };
    assert_eq!(
        m.encode(),
        "{\"type\":\"output\",\"session_id\":\"s\\\"1\",\"data\":\"a\\\\b\\n\\r\\t\\b\\f\\u0001\\u001fé\"}"
    );
}

#[test]
fn encode_output_matches_json() {
    let m = ServerMessage::Output { session_id: "x".to_string(), data: "line\n\"q\"".to_string() };
    let v: serde_json::Value = serde_json::from_str(&m.encode()).unwrap();
    assert_eq!(v["type"], "output");
    assert_eq!(v["session_id"], "x");
    assert_eq!(v["data"], "line\n\"q\"");
}

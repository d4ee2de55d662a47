use mcp_middleware::mcp_payload::McpInputPayload;
use mcp_middleware::sessions::{session_header, Session, SessionStage};

fn decode(payload: &str) -> mcp_middleware::mcp_payload::McpInputData {
    McpInputPayload::try_parse(payload).unwrap().data
}

#[test]
fn header_name_is_fixed() {
    assert_eq!(session_header(), "mcp-session-id");
}

#[test]
fn created_session_gates_requests() {
    let s = Session::new(String::from("s1"));
    assert_eq!(s.stage, SessionStage::Created);
    assert!(s.accepts(&decode(
        "{\"jsonrpc\":\"2.0\",\"method\":\"initialize\",\"id\":1,\"params\":{\"protocolVersion\":\"x\"}}"
    )));
    assert!(s.accepts(&decode("{\"jsonrpc\":\"2.0\",\"method\":\"ping\",\"id\":1}")));
    assert!(s.accepts(&decode("{\"jsonrpc\":\"2.0\",\"method\":\"notifications/initialized\"}")));
    assert!(!s.accepts(&decode("{\"jsonrpc\":\"2.0\",\"method\":\"tools/list\",\"id\":1}")));
    assert!(!s.accepts(&decode(
        "{\"jsonrpc\":\"2.0\",\"method\":\"resources/list\",\"id\":1,\"params\":{}}"
    )));
}

#[test]
fn initialized_session_accepts_everything() {
    let mut s = Session::new(String::from("s1"));
    s.note_initialize_sent();
    s.note_initialized();
    assert_eq!(s.stage, SessionStage::Initialized);
    assert!(s.accepts(&decode("{\"jsonrpc\":\"2.0\",\"method\":\"tools/list\",\"id\":1}")));
    assert!(s.accepts(&decode("{\"jsonrpc\":\"2.0\",\"method\":\"foo/bar\",\"id\":1}")));
}

#[test]
fn notification_alone_does_not_promote() {
    let mut s = Session::new(String::from("s1"));
    s.note_initialized();
    assert_eq!(s.stage, SessionStage::Created);
    s.note_initialize_sent();
    s.note_initialized();
    assert_eq!(s.stage, SessionStage::Initialized);
}

#[test]
fn closed_session_accepts_nothing_and_stays_closed() {
    let mut s = Session::new(String::from("s1"));
    s.note_initialize_sent();
    s.note_initialized();
    s.close();
    assert_eq!(s.stage, SessionStage::Closed);
    assert!(!s.accepts(&decode("{\"jsonrpc\":\"2.0\",\"method\":\"ping\",\"id\":1}")));
    s.note_initialized();
    assert_eq!(s.stage, SessionStage::Closed);
}

use chat_relay::envelope::Kind;
use chat_relay::registry::Registry;
use chat_relay::session::{classify_frame, Command, FrameAction, Session, SessionState};

fn active_session(room: &str, user: &str) -> Session {
    let mut s = Session::new(String::from(room), String::from(user));
    s.on_open();
    s
}

#[test]
fn open_joins_exactly_once() {
    let mut s = Session::new(String::from("r"), String::from("alice"));
    assert!(s.state == SessionState::Connecting);
    match s.on_open() {
        Some(Command::Join { room_id, user }) => {
            assert_eq!(room_id, "r");
            assert_eq!(user, "alice");
        },
        _ => panic!("first open must ask to join"),
    }
    assert!(s.state == SessionState::Active);
    assert!(s.on_open().is_none());
}

#[test]
fn chat_frame_publishes_its_body() {
    let s = active_session("r", "alice");
    match s.on_text("{\"type\":\"chat\",\"message\":\"hi\"}") {
        Some(Command::Publish { envelope }) => {
            assert_eq!(envelope.room_id, "r");
            assert_eq!(envelope.user, "alice");
            assert_eq!(envelope.message, "hi");
            assert!(envelope.kind == Kind::Chat);
        },
        _ => panic!("chat frame must publish"),
    }
}

#[test]
fn typing_frame_publishes_empty_body() {
    let s = active_session("r", "alice");
    match s.on_text("{\"type\":\"typing\"}") {
        Some(Command::Publish { envelope }) => {
            assert_eq!(envelope.message, "");
            assert!(envelope.kind == Kind::Typing);
        },
        _ => panic!("typing frame must publish"),
    }
}

#[test]
fn unknown_frame_kind_is_dropped() {
    let s = active_session("r", "alice");
    assert!(s.on_text("{\"type\":\"presence\",\"message\":\"x\"}").is_none());
}

#[test]
fn missing_kind_defaults_to_chat() {
    let s = active_session("r", "alice");
    match s.on_text("{\"message\":\"just text\"}") {
        Some(Command::Publish { envelope }) => {
            assert_eq!(envelope.message, "just text");
            assert!(envelope.kind == Kind::Chat);
        },
        _ => panic!("missing kind must default to chat"),
    }
}

#[test]
fn malformed_frame_degrades_to_empty_chat() {
    let s = active_session("r", "alice");
    match s.on_text("this is not json") {
        Some(Command::Publish { envelope }) => {
            assert_eq!(envelope.message, "");
            assert!(envelope.kind == Kind::Chat);
        },
        _ => panic!("malformed input must degrade, not fail"),
    }
}

#[test]
fn non_string_fields_are_treated_as_absent() {
    let s = active_session("r", "alice");
    match s.on_text("{\"type\":\"chat\",\"message\":42}") {
        Some(Command::Publish { envelope }) => {
            assert_eq!(envelope.message, "");
            assert!(envelope.kind == Kind::Chat);
        },
        _ => panic!("a non-string body must default to empty"),
    }
}

#[test]
fn frames_before_open_are_ignored() {
    let s = Session::new(String::from("r"), String::from("alice"));
    assert!(s.on_text("{\"type\":\"chat\",\"message\":\"hi\"}").is_none());
}

#[test]
fn close_leaves_exactly_once() {
    let mut s = active_session("r", "alice");
    match s.on_close() {
        Some(Command::Leave { room_id, user }) => {
            assert_eq!(room_id, "r");
            assert_eq!(user, "alice");
        },
        _ => panic!("first close must ask to leave"),
    }
    assert!(s.state == SessionState::Closed);
    assert!(s.on_close().is_none());
    assert!(s.on_text("{\"type\":\"chat\",\"message\":\"hi\"}").is_none());
}

#[test]
fn full_scenario_create_join_chat_disconnect() {
    let mut registry = Registry::new();
    let (id, name) = registry.create_room();
    assert_eq!(id.len(), 36);
    assert_eq!(&id[8..9], "-");
    assert!(name.starts_with("Room "));

    let mut alice = Session::new(id.clone(), String::from("alice"));
    if let Some(Command::Join { room_id, user }) = alice.on_open() {
        assert_eq!(registry.join(&room_id, &user).len(), 0);
    } else {
        panic!("alice must join");
    }

    let mut bob = Session::new(id.clone(), String::from("bob"));
    if let Some(Command::Join { room_id, user }) = bob.on_open() {
        let notes = registry.join(&room_id, &user);
        assert_eq!(notes.len(), 1);
        assert_eq!(notes[0].to, "alice");
        assert_eq!(notes[0].envelope.message, "bob has joined the chat");
        assert!(notes[0].envelope.kind == Kind::Notification);
    } else {
        panic!("bob must join");
    }

    let cmd = alice.on_text("{\"type\":\"chat\",\"message\":\"hi\"}");
    if let Some(Command::Publish { envelope }) = cmd {
        let out = registry.publish(&envelope.room_id, &envelope.user, &envelope.message, envelope.kind);
        assert_eq!(out.len(), 2);
        let mut recipients: Vec<&str> = out.iter().map(|d| d.to.as_str()).collect();
        recipients.sort();
        assert_eq!(recipients, vec!["alice", "bob"]);
        for d in &out {
            assert_eq!(d.envelope.room_id, id);
            assert_eq!(d.envelope.user, "alice");
            assert_eq!(d.envelope.message, "hi");
            assert!(d.envelope.kind == Kind::Chat);
        }
    } else {
        panic!("alice's chat frame must publish");
    }

    if let Some(Command::Leave { room_id, user }) = bob.on_close() {
        let notes = registry.leave(&room_id, &user);
        assert_eq!(notes.len(), 1);
        assert_eq!(notes[0].to, "alice");
        assert_eq!(notes[0].envelope.message, "bob has left the chat");
        assert!(notes[0].envelope.kind == Kind::Notification);
    } else {
        panic!("bob's close must leave");
    }
    assert!(bob.on_close().is_none());
}

#[test]
fn classify_frame_is_pure_over_fields() {
    match classify_frame(Some(String::from("chat")), Some(String::from("x"))) {
        FrameAction::Chat { message } => assert_eq!(message, "x"),
        _ => panic!("chat must classify as chat"),
    }
    assert!(matches!(classify_frame(Some(String::from("typing")), None), FrameAction::Typing));
    assert!(matches!(classify_frame(Some(String::from("nope")), None), FrameAction::Ignore));
    match classify_frame(None, None) {
        FrameAction::Chat { message } => assert_eq!(message, ""),
        _ => panic!("missing kind must default to chat"),
    }
}

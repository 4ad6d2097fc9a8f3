//! One client session: its lifecycle and the decisions it takes.
//!
//! A session is bound to one room and one user identity for its whole
//! life and moves through `Connecting -> Active -> Closed`.  Opening
//! asks the registry to join, exactly once; each inbound text frame is
//! parsed and either published or dropped; closing asks the registry to
//! leave, exactly once, however often the close signal is repeated.
//! The session never performs I/O itself: it hands `Command` values to
//! the caller, which performs them against the registry.

use vstd::prelude::*;
use crate::envelope::Envelope;
use crate::envelope::EnvelopeModel;
use crate::envelope::Kind;
use crate::strutil::str_eq;

verus! {

/// The "type" and "message" string fields of a JSON frame, if present;
/// a function of the text alone.
pub uninterp spec fn frame_fields(s: Seq<char>) -> (Option<Seq<char>>, Option<Seq<char>>);

/// The sequence of characters an optional string holds.
pub open spec fn opt_view(o: Option<String>) -> Option<Seq<char>> {
    match o {
        Some(s) => Some(s@),
        None => None,
    }
}

/// Relies on serde_json::from_str and serde_json::Value::{get, as_str}:
/// reads the top-level "type" and "message" string fields of the JSON
/// text; absent, non-string or unparseable input yields `None` fields.
#[verifier::external_body]
fn extract_frame_fields(text: &str) -> (r: (Option<String>, Option<String>))
    ensures
        opt_view(r.0) == frame_fields(text@).0,
        opt_view(r.1) == frame_fields(text@).1,
{
    let v: serde_json::Value = serde_json::from_str(text).unwrap_or_default();
    let t = v.get("type").and_then(serde_json::Value::as_str).map(str::to_string);
    let m = v.get("message").and_then(serde_json::Value::as_str).map(str::to_string);
    (t, m)
}

/// What a parsed inbound frame asks the session to do.
pub enum FrameAction {
    /// Publish the body as a chat message.
    Chat { message: String },
    /// Publish a typing indicator with an empty body.
    Typing,
    /// Drop the frame.
    Ignore,
}

/// The mathematical value of a frame action.
pub ghost enum FrameActionModel {
    Chat { message: Seq<char> },
    Typing,
    Ignore,
}

impl View for FrameAction {
    type V = FrameActionModel;

    open spec fn view(&self) -> FrameActionModel {
        match self {
            FrameAction::Chat { message } => FrameActionModel::Chat { message: message@ },
            FrameAction::Typing => FrameActionModel::Typing,
            FrameAction::Ignore => FrameActionModel::Ignore,
        }
    }
}

/// How the two extracted fields are read: a missing kind defaults to
/// chat, a missing body to the empty string, and an unrecognized kind
/// drops the frame.
pub open spec fn classify_spec(t: Option<Seq<char>>, m: Option<Seq<char>>) -> FrameActionModel {
    let kind = match t {
        Some(k) => k,
        None => "chat"@,
    };
    if kind == "chat"@ {
        FrameActionModel::Chat {
            message: match m {
                Some(b) => b,
                None => Seq::empty(),
            },
        }
    } else if kind == "typing"@ {
        FrameActionModel::Typing
    } else {
        FrameActionModel::Ignore
    }
}

/// Turns the extracted frame fields into the action the session takes.
pub fn classify_frame(t: Option<String>, m: Option<String>) -> (a: FrameAction)
    ensures
        a@ == classify_spec(opt_view(t), opt_view(m)),
{
    let kind_is_chat = match &t {
        Some(k) => str_eq(k.as_str(), "chat"),
        None => true,
    };
    if kind_is_chat {
        let message = match m {
            Some(b) => b,
            None => String::new(),
        };
        FrameAction::Chat { message }
    } else {
        let kind_is_typing = match &t {
            Some(k) => str_eq(k.as_str(), "typing"),
            None => false,
        };
        if kind_is_typing {
            FrameAction::Typing
        } else {
            FrameAction::Ignore
        }
    }
}

/// The lifecycle of one client connection.
#[derive(Clone, Copy, PartialEq, Eq, Structural, Debug)]
pub enum SessionState {
    Connecting,
    Active,
    Closed,
}

/// A request a session hands to its caller to run against the registry.
pub enum Command {
    Join { room_id: String, user: String },
    Leave { room_id: String, user: String },
    Publish { envelope: Envelope },
}

/// Whether `c` asks to join room `rid` as `user`.
pub open spec fn is_join_cmd(c: Command, rid: Seq<char>, user: Seq<char>) -> bool {
    c matches Command::Join { room_id, user: u } && room_id@ == rid && u@ == user
}

/// Whether `c` asks to leave room `rid` as `user`.
pub open spec fn is_leave_cmd(c: Command, rid: Seq<char>, user: Seq<char>) -> bool {
    c matches Command::Leave { room_id, user: u } && room_id@ == rid && u@ == user
}

/// Whether `c` asks to publish exactly the envelope `e`.
pub open spec fn is_publish_cmd(c: Command, e: EnvelopeModel) -> bool {
    c matches Command::Publish { envelope } && envelope@ == e
}

/// What an inbound text frame makes an active session publish, if
/// anything.
pub open spec fn text_out(s: Session, t: Seq<char>) -> Option<EnvelopeModel> {
    if s.state != SessionState::Active {
        None
    } else {
        match classify_spec(frame_fields(t).0, frame_fields(t).1) {
            FrameActionModel::Chat { message } => Some(
                EnvelopeModel { room_id: s.room_id@, user: s.user@, message: message, kind: Kind::Chat },
            ),
            FrameActionModel::Typing => Some(
                EnvelopeModel {
                    room_id: s.room_id@,
                    user: s.user@,
                    message: Seq::empty(),
                    kind: Kind::Typing,
                },
            ),
            FrameActionModel::Ignore => None,
        }
    }
}

/// One client session.
pub struct Session {
    pub room_id: String,
    pub user: String,
    pub state: SessionState,
}

impl Session {
    /// A fresh session for the given room and user, not yet active.
    pub fn new(room_id: String, user: String) -> (s: Session)
        ensures
            s.room_id@ == room_id@,
            s.user@ == user@,
            s.state == SessionState::Connecting,
    {
        Session { room_id, user, state: SessionState::Connecting }
    }

    /// The transport is up: the first call activates the session and
    /// asks to join its room; any further call does nothing.
    pub fn on_open(&mut self) -> (r: Option<Command>)
        ensures
            final(self).room_id == old(self).room_id,
            final(self).user == old(self).user,
            old(self).state == SessionState::Connecting ==> {
                &&& final(self).state == SessionState::Active
                &&& (r matches Some(c) && is_join_cmd(c, old(self).room_id@, old(self).user@))
            },
            old(self).state != SessionState::Connecting ==> {
                &&& final(self).state == old(self).state
                &&& r is None
            },
    {
        if self.state == SessionState::Connecting {
            self.state = SessionState::Active;
            Some(Command::Join { room_id: self.room_id.clone(), user: self.user.clone() })
        } else {
            None
        }
    }

    /// An inbound text frame: while active, a chat frame is published
    /// with its body, a typing frame with an empty body, and anything
    /// else -- malformed input included -- is dropped without ending the
    /// session.
    pub fn on_text(&self, text: &str) -> (r: Option<Command>)
        ensures
            match text_out(*self, text@) {
                Some(e) => (r matches Some(c) && is_publish_cmd(c, e)),
                None => r is None,
            },
    {
        if self.state != SessionState::Active {
            return None;
        }
        let (t, m) = extract_frame_fields(text);
        match classify_frame(t, m) {
            FrameAction::Chat { message } => Some(Command::Publish {
                envelope: Envelope {
                    room_id: self.room_id.clone(),
                    user: self.user.clone(),
                    message,
                    kind: Kind::Chat,
                },
            }),
            FrameAction::Typing => Some(Command::Publish {
                envelope: Envelope {
                    room_id: self.room_id.clone(),
                    user: self.user.clone(),
                    message: String::new(),
                    kind: Kind::Typing,
                },
            }),
            FrameAction::Ignore => None,
        }
    }

    /// The transport is going away: the first call closes the session
    /// and asks to leave its room; repeated close signals do nothing, so
    /// the leave request is made exactly once.
    pub fn on_close(&mut self) -> (r: Option<Command>)
        ensures
            final(self).room_id == old(self).room_id,
            final(self).user == old(self).user,
            final(self).state == SessionState::Closed,
            old(self).state != SessionState::Closed ==> (r matches Some(c) && is_leave_cmd(
                c,
                old(self).room_id@,
                old(self).user@,
            )),
            old(self).state == SessionState::Closed ==> r is None,
    {
        if self.state != SessionState::Closed {
            self.state = SessionState::Closed;
            Some(Command::Leave { room_id: self.room_id.clone(), user: self.user.clone() })
        } else {
            None
        }
    }
}

} // verus!

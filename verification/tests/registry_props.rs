use chat_relay::envelope::{Delivery, Kind};
use chat_relay::registry::Registry;

fn deliveries_to<'a>(devs: &'a [Delivery], who: &str) -> Vec<&'a Delivery> {
    devs.iter().filter(|d| d.to == who).collect()
}

fn room_with_members(members: &[&str]) -> (Registry, String) {
    let mut r = Registry::new();
    r.insert_room(String::from("room-1"), String::from("Lounge"));
    for m in members {
        r.join("room-1", m);
    }
    (r, String::from("room-1"))
}

#[test]
fn publish_reaches_every_member_exactly_once() {
    let (r, rid) = room_with_members(&["u1", "u2", "u3"]);
    let out = r.publish(&rid, "u2", "hello there", Kind::Chat);
    assert_eq!(out.len(), 3);
    for member in ["u1", "u2", "u3"] {
        let got = deliveries_to(&out, member);
        assert_eq!(got.len(), 1);
        let env = &got[0].envelope;
        assert_eq!(env.room_id, "room-1");
        assert_eq!(env.user, "u2");
        assert_eq!(env.message, "hello there");
        assert!(env.kind == Kind::Chat);
    }
}

#[test]
fn sender_receives_own_echo() {
    let (r, rid) = room_with_members(&["solo"]);
    let out = r.publish(&rid, "solo", "me too", Kind::Chat);
    assert_eq!(out.len(), 1);
    assert_eq!(out[0].to, "solo");
    assert_eq!(out[0].envelope.message, "me too");
}

#[test]
fn join_notifies_existing_members_only() {
    let (mut r, rid) = room_with_members(&["old1", "old2"]);
    let out = r.join(&rid, "newbie");
    assert_eq!(out.len(), 2);
    assert_eq!(deliveries_to(&out, "newbie").len(), 0);
    for member in ["old1", "old2"] {
        let got = deliveries_to(&out, member);
        assert_eq!(got.len(), 1);
        let env = &got[0].envelope;
        assert_eq!(env.user, "newbie");
        assert_eq!(env.message, "newbie has joined the chat");
        assert!(env.kind == Kind::Notification);
    }
}

#[test]
fn first_join_notifies_nobody() {
    let (mut r, rid) = room_with_members(&[]);
    let out = r.join(&rid, "first");
    assert_eq!(out.len(), 0);
}

#[test]
fn leave_notifies_remaining_members_only() {
    let (mut r, rid) = room_with_members(&["a", "b", "c"]);
    let out = r.leave(&rid, "b");
    assert_eq!(out.len(), 2);
    assert_eq!(deliveries_to(&out, "b").len(), 0);
    for member in ["a", "c"] {
        let got = deliveries_to(&out, member);
        assert_eq!(got.len(), 1);
        let env = &got[0].envelope;
        assert_eq!(env.user, "b");
        assert_eq!(env.message, "b has left the chat");
        assert!(env.kind == Kind::Notification);
    }
}

#[test]
fn leave_twice_is_idempotent() {
    let (mut r, rid) = room_with_members(&["a", "b"]);
    let first = r.leave(&rid, "b");
    assert_eq!(first.len(), 1);
    let second = r.leave(&rid, "b");
    assert_eq!(second.len(), 0);
    let out = r.publish(&rid, "a", "still here", Kind::Chat);
    assert_eq!(out.len(), 1);
    assert_eq!(out[0].to, "a");
}

#[test]
fn missing_room_is_a_silent_no_op() {
    let mut r = Registry::new();
    r.insert_room(String::from("room-1"), String::from("Lounge"));
    r.join("room-1", "a");

    assert_eq!(r.publish("nope", "a", "x", Kind::Chat).len(), 0);
    assert_eq!(r.join("nope", "b").len(), 0);
    assert_eq!(r.leave("nope", "a").len(), 0);
    assert!(r.get_room_info("nope").is_none());

    let info = r.get_room_info("room-1").expect("room must still exist");
    assert_eq!(info.room_id, "room-1");
    assert_eq!(info.room_name, "Lounge");
    let out = r.publish("room-1", "a", "x", Kind::Chat);
    assert_eq!(out.len(), 1);
}

#[test]
fn leave_of_absent_user_notifies_nobody() {
    let (mut r, rid) = room_with_members(&["a"]);
    let out = r.leave(&rid, "ghost");
    assert_eq!(out.len(), 0);
}

#[test]
fn rejoin_keeps_membership_single() {
    let (mut r, rid) = room_with_members(&["a", "b"]);
    let out = r.join(&rid, "a");
    assert_eq!(out.len(), 2);
    assert_eq!(deliveries_to(&out, "a").len(), 1);
    let echo = r.publish(&rid, "a", "once", Kind::Chat);
    assert_eq!(echo.len(), 2);
}

#[test]
fn reinserting_a_room_resets_its_members() {
    let (mut r, rid) = room_with_members(&["a", "b"]);
    r.insert_room(rid.clone(), String::from("Fresh"));
    assert_eq!(r.publish(&rid, "a", "x", Kind::Chat).len(), 0);
    let info = r.get_room_info(&rid).expect("room exists");
    assert_eq!(info.room_name, "Fresh");
}

#[test]
fn typing_envelopes_fan_out_like_chat() {
    let (r, rid) = room_with_members(&["a", "b"]);
    let out = r.publish(&rid, "a", "", Kind::Typing);
    assert_eq!(out.len(), 2);
    for d in &out {
        assert_eq!(d.envelope.message, "");
        assert!(d.envelope.kind == Kind::Typing);
    }
}

#[test]
fn create_room_returns_uuid_like_id_and_derived_name() {
    let mut r = Registry::new();
    let (id, name) = r.create_room();
    assert_eq!(id.len(), 36);
    for (i, c) in id.chars().enumerate() {
        if i == 8 || i == 13 || i == 18 || i == 23 {
            assert_eq!(c, '-');
        } else {
            assert!(c.is_ascii_hexdigit() && !c.is_ascii_uppercase());
        }
    }
    assert_eq!(name.len(), 13);
    assert!(name.starts_with("Room "));
    for c in name[5..].chars() {
        assert!(c.is_ascii_hexdigit() && !c.is_ascii_uppercase());
    }
    let info = r.get_room_info(&id).expect("created room must be found");
    assert_eq!(info.room_id, id);
    assert_eq!(info.room_name, name);

    let (id2, _) = r.create_room();
    assert_ne!(id, id2);
}

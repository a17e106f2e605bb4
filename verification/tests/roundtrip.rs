use janus_sfu::codec::{parse_message, serialize_message};
use janus_sfu::messages::{MessageKind, OptionalField, Subscription};

fn round_trips(m: MessageKind) {
    let text = serialize_message(&m);
    let parsed = parse_message(text.as_str()).unwrap();
    assert_eq!(parsed, OptionalField::Present(m));
}

#[test]
fn join_round_trip() {
    round_trips(MessageKind::Join {
        room_id: "alpha".into(),
        user_id: "u1".into(),
        subscribe: None,
        token: None,
    });
    round_trips(MessageKind::Join {
        room_id: "alpha".into(),
        user_id: "u1".into(),
        subscribe: Some(Subscription {
            notifications: true,
            data: true,
            media: Some("u2".into()),
        }),
        token: Some("tok".into()),
    });
}

#[test]
fn kick_round_trip() {
    round_trips(MessageKind::Kick {
        room_id: "alpha".into(),
        user_id: "u2".into(),
        token: "tok".into(),
    });
}

#[test]
fn subscribe_round_trip() {
    round_trips(MessageKind::Subscribe {
        what: Subscription {
            notifications: false,
            data: true,
            media: None,
        },
    });
}

#[test]
fn block_unblock_round_trip() {
    round_trips(MessageKind::Block { whom: "u2".into() });
    round_trips(MessageKind::Unblock { whom: "u2".into() });
}

#[test]
fn data_round_trip() {
    round_trips(MessageKind::Data {
        whom: None,
        body: "hello there".into(),
    });
    round_trips(MessageKind::Data {
        whom: Some("u2".into()),
        body: "hi".into(),
    });
}

#[test]
fn strings_with_escapes_round_trip() {
    round_trips(MessageKind::Data {
        whom: None,
        body: "say \"hi\" \\ there\nline\ttab".into(),
    });
    round_trips(MessageKind::Join {
        room_id: "room \"a\"".into(),
        user_id: "u\\1".into(),
        subscribe: Some(Subscription {
            notifications: false,
            data: false,
            media: Some("who\nm".into()),
        }),
        token: Some("t\rok".into()),
    });
}

#[test]
fn parse_decodes_standard_escapes() {
    let parsed = parse_message(r#"{"kind":"data","body":"a\"b\\c\nd\/e\tf\r\b\fg"}"#).unwrap();
    assert_eq!(
        parsed,
        OptionalField::Present(MessageKind::Data {
            whom: None,
            body: "a\"b\\c\nd/e\tf\r\u{0008}\u{000C}g".into()
        })
    );
    // an unknown escape code is rejected
    assert!(parse_message(r#"{"kind":"data","body":"a\qb"}"#).is_err());
}

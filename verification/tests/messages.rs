use janus_sfu::codec::{parse_jsep, parse_message};
use janus_sfu::messages::{JsepKind, MessageKind, OptionalField, Subscription};

#[test]
fn parse_empty() {
    let json = r#"{}"#;
    let result = parse_message(json).unwrap();
    assert_eq!(result, OptionalField::Absent);
}

#[test]
fn parse_inner_error() {
    let json = r#"{"kind": "join"}"#;
    let result = parse_message(json);
    assert!(result.is_err());
}

#[test]
fn parse_outer_error() {
    let json = r#"{"kind": "fiddle"}"#;
    let result = parse_message(json);
    assert!(result.is_err());
}

#[test]
fn parse_join_user_id() {
    let json = r#"{"kind": "join", "user_id": "10", "room_id": "alpha", "token": "foo"}"#;
    let result = parse_message(json).unwrap();
    assert_eq!(
        result,
        OptionalField::Present(MessageKind::Join {
            user_id: "10".into(),
            room_id: "alpha".into(),
            subscribe: None,
            token: Some(String::from("foo"))
        })
    );
}

#[test]
fn parse_join_subscriptions() {
    let json = r#"{"kind": "join", "user_id": "10", "room_id": "5", "subscribe": {"notifications": true, "data": false}}"#;
    let result = parse_message(json).unwrap();
    assert_eq!(
        result,
        OptionalField::Present(MessageKind::Join {
            user_id: "10".into(),
            room_id: "5".into(),
            subscribe: Some(Subscription {
                notifications: true,
                data: false,
                media: None
            }),
            token: None
        })
    );
}

#[test]
fn parse_subscribe() {
    let json = r#"{"kind": "subscribe", "what": {"notifications": false, "data": true, "media": "steve"}}"#;
    let result = parse_message(json).unwrap();
    assert_eq!(
        result,
        OptionalField::Present(MessageKind::Subscribe {
            what: Subscription {
                notifications: false,
                data: true,
                media: Some("steve".into())
            }
        })
    );
}

#[test]
fn parse_numeric_identifiers() {
    let json = r#"{"kind": "join", "user_id": 10, "room_id": 5}"#;
    let result = parse_message(json).unwrap();
    assert_eq!(
        result,
        OptionalField::Present(MessageKind::Join {
            user_id: "10".into(),
            room_id: "5".into(),
            subscribe: None,
            token: None
        })
    );
}

#[test]
fn parse_block_and_data() {
    let block = parse_message(r#"{"kind":"block","whom":"u2"}"#).unwrap();
    assert_eq!(
        block,
        OptionalField::Present(MessageKind::Block { whom: "u2".into() })
    );
    let data = parse_message(r#"{"kind":"data","whom":"u2","body":"hi"}"#).unwrap();
    assert_eq!(
        data,
        OptionalField::Present(MessageKind::Data {
            whom: Some("u2".into()),
            body: "hi".into()
        })
    );
    let broadcast = parse_message(r#"{"kind":"data","body":"hi"}"#).unwrap();
    assert_eq!(
        broadcast,
        OptionalField::Present(MessageKind::Data {
            whom: None,
            body: "hi".into()
        })
    );
}

#[test]
fn parse_rejects_trailing_text() {
    assert!(parse_message(r#"{} extra"#).is_err());
    assert!(parse_message(r#"{"kind":"block","whom":"u2"}}"#).is_err());
}

#[test]
fn parse_rejects_duplicate_keys() {
    assert!(parse_message(r#"{"kind":"block","kind":"block","whom":"u2"}"#).is_err());
}

#[test]
fn into_option_collapses() {
    let present: OptionalField<u32> = OptionalField::Present(4);
    let absent: OptionalField<u32> = OptionalField::Absent;
    assert_eq!(present.into_option(), Some(4));
    assert_eq!(absent.into_option(), None);
}

#[test]
fn parse_jsep_payloads() {
    let offer = parse_jsep(r#"{"type":"offer","sdp":"v=0\r\nm=audio"}"#).unwrap();
    assert_eq!(
        offer,
        JsepKind::Offer {
            sdp: "v=0\r\nm=audio".into()
        }
    );
    let answer = parse_jsep(r#"{"sdp":"v=0","type":"answer"}"#).unwrap();
    assert_eq!(answer, JsepKind::Answer { sdp: "v=0".into() });
    assert!(parse_jsep(r#"{"type":"offer"}"#).is_err());
    assert!(parse_jsep(r#"{"type":"rollback","sdp":"v=0"}"#).is_err());
    assert!(parse_jsep("{}").is_err());
}

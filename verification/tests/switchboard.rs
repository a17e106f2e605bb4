use janus_sfu::messages::Subscription;
use janus_sfu::sessions::{JoinKind, JoinState, Session};
use janus_sfu::switchboard::{BidirectionalMultimap, Switchboard};

#[test]
fn multimap_mirrors_both_directions() {
    let mut m: BidirectionalMultimap<String, String> = BidirectionalMultimap::new();
    m.associate("a".to_string(), "x".to_string());
    m.associate("a".to_string(), "y".to_string());
    m.associate("b".to_string(), "x".to_string());
    assert_eq!(m.get_values(&"a".to_string()), vec!["x".to_string(), "y".to_string()]);
    assert_eq!(m.get_keys(&"x".to_string()), vec!["a".to_string(), "b".to_string()]);

    m.disassociate(&"a".to_string(), &"x".to_string());
    assert_eq!(m.get_values(&"a".to_string()), vec!["y".to_string()]);
    assert_eq!(m.get_keys(&"x".to_string()), vec!["b".to_string()]);

    m.remove_key(&"a".to_string());
    assert!(m.get_values(&"a".to_string()).is_empty());
    assert_eq!(m.get_keys(&"y".to_string()), Vec::<String>::new());

    m.remove_value(&"x".to_string());
    assert!(m.get_values(&"b".to_string()).is_empty());
    assert!(m.get_keys(&"x".to_string()).is_empty());
}

fn join(sb: &mut Switchboard, h: u64, kind: JoinKind, room: &str, user: &str) {
    sb.connect(Session::new(h));
    sb.set_join_state_of(h, JoinState::new(kind, room.to_string(), user.to_string()))
        .unwrap();
    match kind {
        JoinKind::Publisher => sb.join_publisher(h, user.to_string(), room.to_string()),
        JoinKind::Subscriber => sb.join_subscriber(h, user.to_string(), room.to_string()),
    }
}

#[test]
fn single_publisher_per_user() {
    let mut sb = Switchboard::new();
    join(&mut sb, 1, JoinKind::Publisher, "alpha", "u1");
    assert_eq!(sb.get_publisher(&"u1".to_string()), Some(1));

    // a second publisher session for the same user is not indexed
    sb.connect(Session::new(2));
    sb.set_join_state_of(
        2,
        JoinState::new(JoinKind::Publisher, "alpha".to_string(), "u1".to_string()),
    )
    .unwrap();
    sb.join_publisher(2, "u1".to_string(), "alpha".to_string());
    assert_eq!(sb.get_publisher(&"u1".to_string()), Some(1));
    assert_eq!(sb.publishers_occupying(&"alpha".to_string()), vec![1]);

    sb.leave_publisher(1);
    assert_eq!(sb.get_publisher(&"u1".to_string()), None);
}

#[test]
fn room_users_are_distinct_and_in_join_order() {
    let mut sb = Switchboard::new();
    join(&mut sb, 1, JoinKind::Publisher, "alpha", "u1");
    join(&mut sb, 2, JoinKind::Publisher, "alpha", "u2");
    join(&mut sb, 3, JoinKind::Publisher, "beta", "u3");
    let users = sb.get_room_users(&"alpha".to_string());
    assert_eq!(users, vec!["u1".to_string(), "u2".to_string()]);
    assert!(sb.is_connected(&"u2".to_string()));
    assert!(!sb.is_connected(&"u9".to_string()));
}

#[test]
fn media_recipients_respect_blocks_symmetrically() {
    let mut sb = Switchboard::new();
    join(&mut sb, 1, JoinKind::Publisher, "alpha", "u1");
    join(&mut sb, 2, JoinKind::Subscriber, "alpha", "u2");
    sb.subscribe_to_user(2, 1);
    assert_eq!(sb.media_recipients_for(1), vec![2]);
    assert_eq!(sb.media_senders_to(2), vec![1]);

    // a block in either direction stops traffic both ways
    sb.establish_block("u1".to_string(), "u2".to_string());
    assert!(sb.media_recipients_for(1).is_empty());
    assert!(sb.media_senders_to(2).is_empty());

    sb.lift_block(&"u1".to_string(), &"u2".to_string());
    assert_eq!(sb.media_recipients_for(1), vec![2]);

    sb.establish_block("u2".to_string(), "u1".to_string());
    assert!(sb.media_recipients_for(1).is_empty());
    assert!(sb.media_senders_to(2).is_empty());
}

#[test]
fn data_recipients_exclude_self_and_blocked() {
    let mut sb = Switchboard::new();
    join(&mut sb, 1, JoinKind::Publisher, "alpha", "u1");
    join(&mut sb, 2, JoinKind::Publisher, "alpha", "u2");
    join(&mut sb, 3, JoinKind::Publisher, "alpha", "u3");
    assert_eq!(sb.data_recipients_for(1), vec![2, 3]);
    sb.establish_block("u3".to_string(), "u1".to_string());
    assert_eq!(sb.data_recipients_for(1), vec![2]);
}

#[test]
fn write_once_fields_reject_second_write() {
    let mut sb = Switchboard::new();
    sb.connect(Session::new(1));
    let first = JoinState::new(JoinKind::Publisher, "alpha".to_string(), "u1".to_string());
    sb.set_join_state_of(1, first).unwrap();
    let second = JoinState::new(JoinKind::Subscriber, "beta".to_string(), "u9".to_string());
    assert!(sb.set_join_state_of(1, second).is_err());
    let kept = sb.join_state_of(1).unwrap();
    assert_eq!(kept.room_id, "alpha".to_string());
    assert_eq!(kept.user_id, "u1".to_string());
    assert_eq!(kept.kind, JoinKind::Publisher);

    let sub = Subscription {
        notifications: true,
        data: false,
        media: None,
    };
    sb.set_subscription_of(1, sub).unwrap();
    let again = Subscription {
        notifications: false,
        data: true,
        media: Some("u2".to_string()),
    };
    assert!(sb.set_subscription_of(1, again).is_err());
    let kept = sb.subscription_of(1).unwrap();
    assert!(kept.notifications);
    assert!(!kept.data);
    assert_eq!(kept.media, None);
}

#[test]
fn subscriptions_and_subscribers_index() {
    let mut sb = Switchboard::new();
    join(&mut sb, 1, JoinKind::Publisher, "alpha", "u1");
    join(&mut sb, 2, JoinKind::Subscriber, "alpha", "u2");
    join(&mut sb, 3, JoinKind::Subscriber, "alpha", "u2");
    assert_eq!(sb.get_subscribers(&"u2".to_string()), vec![2, 3]);
    sb.subscribe_to_user(2, 1);
    sb.subscribe_to_user(3, 1);
    assert_eq!(sb.subscribers_to(1), vec![2, 3]);
    assert_eq!(sb.publishers_to(2), vec![1]);
    sb.leave_subscriber(2);
    assert_eq!(sb.subscribers_to(1), vec![3]);
    assert_eq!(sb.get_subscribers(&"u2".to_string()), vec![3]);
}

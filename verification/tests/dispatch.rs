use janus_sfu::config::Config;
use janus_sfu::dispatch::{
    compose_response, disconnect_session, process_block, process_data, process_join,
    process_kick, process_offer, process_subscribe, process_unblock, MessageResponse, SfuError,
};
use janus_sfu::messages::Subscription;
use janus_sfu::sessions::Session;
use janus_sfu::switchboard::Switchboard;

fn open_config() -> Config {
    Config {
        auth_key: None,
        max_room_size: 0,
        max_ccu: 0,
        message_threads: 0,
    }
}

fn sub(notifications: bool, data: bool, media: Option<&str>) -> Subscription {
    Subscription {
        notifications,
        data,
        media: media.map(|m| m.to_string()),
    }
}

fn join(
    sb: &mut Switchboard,
    config: &Config,
    h: u64,
    room: &str,
    user: &str,
    subscribe: Option<Subscription>,
) -> Result<janus_sfu::dispatch::Outcome, SfuError> {
    sb.connect(Session::new(h));
    process_join(sb, config, h, room.to_string(), user.to_string(), subscribe, None)
}

#[test]
fn join_reports_members_and_notifies() {
    let mut sb = Switchboard::new();
    let config = open_config();
    let first = join(&mut sb, &config, 1, "alpha", "u1", Some(sub(true, true, None))).unwrap();
    assert_eq!(
        first.response.body.unwrap(),
        "{\"users\":{\"alpha\":[\"u1\"]}}"
    );
    assert!(first.response.jsep.is_none());
    assert!(first.events.is_empty());

    let second = join(&mut sb, &config, 2, "alpha", "u2", Some(sub(true, true, None))).unwrap();
    assert_eq!(
        second.response.body.unwrap(),
        "{\"users\":{\"alpha\":[\"u1\",\"u2\"]}}"
    );
    assert_eq!(
        second.events,
        vec![(
            1,
            "{\"event\":\"join\",\"user_id\":\"u2\",\"room_id\":\"alpha\"}".to_string()
        )]
    );
}

#[test]
fn join_is_write_once() {
    let mut sb = Switchboard::new();
    let config = open_config();
    join(&mut sb, &config, 1, "alpha", "u1", None).unwrap();
    let again = process_join(
        &mut sb,
        &config,
        1,
        "beta".to_string(),
        "u9".to_string(),
        None,
        None,
    );
    assert_eq!(again.unwrap_err(), SfuError::AlreadyJoined);
    assert_eq!(
        SfuError::AlreadyJoined.message(),
        "Handles may only join once!"
    );
}

#[test]
fn room_capacity_applies_to_publishers_only() {
    let mut sb = Switchboard::new();
    let config = Config {
        auth_key: None,
        max_room_size: 2,
        max_ccu: 0,
        message_threads: 0,
    };
    join(&mut sb, &config, 1, "alpha", "u1", Some(sub(false, true, None))).unwrap();
    join(&mut sb, &config, 2, "alpha", "u2", Some(sub(false, true, None))).unwrap();
    let third = join(&mut sb, &config, 3, "alpha", "u3", Some(sub(false, true, None)));
    assert_eq!(third.unwrap_err(), SfuError::RoomFull);
    assert_eq!(SfuError::RoomFull.message(), "Room is full.");

    // a subscriber join is not bounded by the room size
    let watcher = join(&mut sb, &config, 4, "alpha", "u4", None);
    assert!(watcher.is_ok());
}

#[test]
fn subscribe_returns_stored_offer_and_is_stable() {
    let mut sb = Switchboard::new();
    let config = open_config();
    join(&mut sb, &config, 1, "alpha", "u1", Some(sub(true, true, None))).unwrap();

    let negotiated = process_offer(&mut sb, 1, "sdp-of-u1".to_string(), "answer-sdp");
    assert_eq!(
        negotiated.jsep,
        "{\"type\":\"answer\",\"sdp\":\"answer-sdp\"}"
    );
    assert!(negotiated.offer_pushes.is_empty());

    sb.connect(Session::new(2));
    sb.set_join_state_of(
        2,
        janus_sfu::sessions::JoinState::new(
            janus_sfu::sessions::JoinKind::Subscriber,
            "alpha".to_string(),
            "u2".to_string(),
        ),
    )
    .unwrap();
    let first = process_subscribe(&mut sb, 2, sub(false, false, Some("u1"))).unwrap();
    let expected = "{\"type\":\"offer\",\"sdp\":\"sdp-of-u1\"}".to_string();
    assert_eq!(first.response.jsep, Some(expected.clone()));
    assert_eq!(sb.media_recipients_for(1), vec![2]);

    // another subscriber receives the identical offer
    sb.connect(Session::new(3));
    sb.set_join_state_of(
        3,
        janus_sfu::sessions::JoinState::new(
            janus_sfu::sessions::JoinKind::Subscriber,
            "alpha".to_string(),
            "u2".to_string(),
        ),
    )
    .unwrap();
    let second = process_subscribe(&mut sb, 3, sub(false, false, Some("u1"))).unwrap();
    assert_eq!(second.response.jsep, Some(expected));

    // a later offer replaces the stored one and renegotiates subscribers
    let renegotiated = process_offer(&mut sb, 1, "sdp-two".to_string(), "answer-two");
    assert_eq!(
        renegotiated.offer_pushes,
        vec![
            (2, "{\"type\":\"offer\",\"sdp\":\"sdp-two\"}".to_string()),
            (3, "{\"type\":\"offer\",\"sdp\":\"sdp-two\"}".to_string())
        ]
    );
}

#[test]
fn subscribe_is_write_once_and_checks_publisher() {
    let mut sb = Switchboard::new();
    let config = open_config();
    join(&mut sb, &config, 1, "alpha", "u1", None).unwrap();
    let missing = process_subscribe(&mut sb, 1, sub(false, false, Some("ghost")));
    assert_eq!(missing.unwrap_err(), SfuError::NoSuchPublisher);
    assert_eq!(
        SfuError::NoSuchPublisher.message(),
        "Can't subscribe to a nonexistent publisher."
    );
    // the first attempt consumed the write-once subscription
    let second = process_subscribe(&mut sb, 1, sub(true, false, None));
    assert_eq!(second.unwrap_err(), SfuError::AlreadySubscribed);
}

#[test]
fn block_then_unblock_controls_traffic_and_fir() {
    let mut sb = Switchboard::new();
    let config = open_config();
    join(&mut sb, &config, 1, "alpha", "u1", Some(sub(true, true, None))).unwrap();
    join(&mut sb, &config, 2, "alpha", "u2", Some(sub(true, true, None))).unwrap();
    process_offer(&mut sb, 1, "sdp-one".to_string(), "answer");
    sb.connect(Session::new(3));
    sb.set_join_state_of(
        3,
        janus_sfu::sessions::JoinState::new(
            janus_sfu::sessions::JoinKind::Subscriber,
            "alpha".to_string(),
            "u2".to_string(),
        ),
    )
    .unwrap();
    process_subscribe(&mut sb, 3, sub(false, false, Some("u1"))).unwrap();
    assert_eq!(sb.media_recipients_for(1), vec![3]);

    let blocked = process_block(&mut sb, 1, "u2".to_string()).unwrap();
    assert_eq!(
        blocked.events,
        vec![(2, "{\"event\":\"blocked\",\"by\":\"u1\"}".to_string())]
    );
    assert!(sb.media_recipients_for(1).is_empty());

    let unblocked = process_unblock(&mut sb, 1, "u2".to_string()).unwrap();
    assert_eq!(unblocked.firs, vec![(2, 0)]);
    // a later keyframe request draws the next sequence number
    let again = process_unblock(&mut sb, 1, "u2".to_string()).unwrap();
    assert_eq!(again.firs, vec![(2, 1)]);
    assert_eq!(
        unblocked.events,
        vec![(2, "{\"event\":\"unblocked\",\"by\":\"u1\"}".to_string())]
    );
    assert_eq!(sb.media_recipients_for(1), vec![3]);

    let lonely = process_block(&mut sb, 9, "u1".to_string());
    assert_eq!(lonely.unwrap_err(), SfuError::BlockNotJoined);
}

#[test]
fn data_fans_out_to_target_only() {
    let mut sb = Switchboard::new();
    let config = open_config();
    join(&mut sb, &config, 1, "alpha", "u1", Some(sub(false, true, None))).unwrap();
    join(&mut sb, &config, 2, "alpha", "u2", Some(sub(false, true, None))).unwrap();
    join(&mut sb, &config, 3, "alpha", "u3", Some(sub(true, false, None))).unwrap();

    let targeted = process_data(&sb, 1, Some("u2".to_string()), "hi".to_string()).unwrap();
    assert_eq!(
        targeted.events,
        vec![(2, "{\"event\":\"data\",\"body\":\"hi\"}".to_string())]
    );

    // bodies with quotes or newlines are escaped in the pushed event
    let quoted = process_data(&sb, 1, Some("u2".to_string()), "say \"hi\"\n".to_string()).unwrap();
    assert_eq!(
        quoted.events,
        vec![(
            2,
            "{\"event\":\"data\",\"body\":\"say \\\"hi\\\"\\n\"}".to_string()
        )]
    );

    // broadcast reaches data-subscribed cohabitants except the sender;
    // u3 opted out of data
    let broadcast = process_data(&sb, 1, None, "all".to_string()).unwrap();
    assert_eq!(
        broadcast.events,
        vec![(2, "{\"event\":\"data\",\"body\":\"all\"}".to_string())]
    );

    let lonely = process_data(&sb, 9, None, "x".to_string());
    assert_eq!(lonely.unwrap_err(), SfuError::DataNotJoined);
}

#[test]
fn kick_ends_every_session_of_the_user() {
    let mut sb = Switchboard::new();
    let config = open_config();
    join(&mut sb, &config, 1, "alpha", "u1", Some(sub(true, true, None))).unwrap();
    join(&mut sb, &config, 2, "alpha", "u2", Some(sub(true, true, None))).unwrap();
    sb.connect(Session::new(3));
    sb.set_join_state_of(
        3,
        janus_sfu::sessions::JoinState::new(
            janus_sfu::sessions::JoinKind::Subscriber,
            "alpha".to_string(),
            "u2".to_string(),
        ),
    )
    .unwrap();
    sb.join_subscriber(3, "u2".to_string(), "alpha".to_string());

    let kicked = process_kick(&sb, &config, &"u2".to_string(), &"ignored".to_string()).unwrap();
    assert_eq!(kicked.end_sessions, vec![2, 3]);
}

#[test]
fn leave_event_fires_once_when_publisher_departs() {
    let mut sb = Switchboard::new();
    let config = open_config();
    join(&mut sb, &config, 1, "alpha", "u1", Some(sub(true, true, None))).unwrap();
    join(&mut sb, &config, 2, "alpha", "u2", Some(sub(true, true, None))).unwrap();
    sb.connect(Session::new(3));
    sb.set_join_state_of(
        3,
        janus_sfu::sessions::JoinState::new(
            janus_sfu::sessions::JoinKind::Subscriber,
            "alpha".to_string(),
            "u2".to_string(),
        ),
    )
    .unwrap();
    sb.join_subscriber(3, "u2".to_string(), "alpha".to_string());

    // a subscriber handle leaving emits nothing
    let quiet = disconnect_session(&mut sb, 3);
    assert!(quiet.is_empty());

    // the publisher handle leaving tells each remaining roommate once
    let events = disconnect_session(&mut sb, 2);
    assert_eq!(
        events,
        vec![(
            1,
            "{\"event\":\"leave\",\"user_id\":\"u2\",\"room_id\":\"alpha\"}".to_string()
        )]
    );
    assert_eq!(sb.get_publisher(&"u2".to_string()), None);
    assert!(!sb.is_connected(&"u2".to_string()));
}

#[test]
fn responses_wrap_in_envelopes() {
    let ok = compose_response(
        Some(Ok(MessageResponse {
            body: Some("{\"users\":{}}".to_string()),
            jsep: None,
        })),
        None,
    );
    assert_eq!(ok.0, "{\"success\":true,\"response\":{\"users\":{}}}");
    assert_eq!(ok.1, None);

    let failed = compose_response(Some(Err(SfuError::RoomFull)), None);
    assert_eq!(
        failed.0,
        "{\"success\":false,\"error\":{\"msg\":\"Room is full.\"}}"
    );

    let silent = compose_response(None, None);
    assert_eq!(silent.0, "{\"success\":true}");

    let with_jsep = compose_response(None, Some(Ok("{\"type\":\"answer\"}".to_string())));
    assert_eq!(with_jsep.0, "{\"success\":true}");
    assert_eq!(with_jsep.1, Some("{\"type\":\"answer\"}".to_string()));
}

use janus_sfu::auth::ValidatedToken;
use janus_sfu::config::{config_value, parse_usize, Config};
use janus_sfu::events::jsep_json;
use janus_sfu::plane::{plan_rtcp, RtcpPlan};
use janus_sfu::negotiate::{fmtp_line, payload_type_or_default};
use janus_sfu::queue::{effective_thread_count, select_worker};
use janus_sfu::subscriptions::{ContentKind, Subscription, SubscriptionSpec};
use janus_sfu::switchboard::Switchboard;

#[test]
fn parses_decimal_values() {
    assert_eq!(parse_usize("0"), Some(0));
    assert_eq!(parse_usize("128"), Some(128));
    assert_eq!(parse_usize(""), None);
    assert_eq!(parse_usize("12a"), None);
    assert_eq!(parse_usize("99999999999999999999999999999"), None);
}

#[test]
fn config_applies_defaults() {
    let c = Config::from_entries(None, Some("64"), None, Some("bogus"));
    assert!(c.auth_key.is_none());
    assert_eq!(c.max_room_size, 64);
    assert_eq!(c.max_ccu, usize::MAX);
    assert_eq!(c.message_threads, 0);
    assert_eq!(config_value(Some("7"), 3), 7);
    assert_eq!(config_value(None, 3), 3);
}

#[test]
fn worker_selection_is_round_robin() {
    assert_eq!(effective_thread_count(0, 8), 8);
    assert_eq!(effective_thread_count(3, 8), 3);
    assert_eq!(select_worker(0, 4), 0);
    assert_eq!(select_worker(5, 4), 1);
    assert_eq!(select_worker(7, 4), 3);
}

#[test]
fn tokens_decide_rooms() {
    let open = ValidatedToken {
        join_hub: true,
        kick_users: false,
        room_ids: None,
    };
    assert!(open.may_join(&"alpha".to_string()));

    let narrow = ValidatedToken {
        join_hub: true,
        kick_users: false,
        room_ids: Some(vec!["alpha".to_string(), "beta".to_string()]),
    };
    assert!(narrow.may_join(&"alpha".to_string()));
    assert!(!narrow.may_join(&"gamma".to_string()));

    let shut = ValidatedToken {
        join_hub: false,
        kick_users: true,
        room_ids: None,
    };
    assert!(!shut.may_join(&"alpha".to_string()));
}

#[test]
fn garbage_tokens_do_not_validate() {
    let key = vec![0u8; 32];
    assert!(ValidatedToken::from_str("not-a-token", &key).is_err());
}

#[test]
fn jsep_payloads_escape_sdp() {
    let j = jsep_json("offer", "v=0\r\nm=audio\n");
    assert_eq!(j, "{\"type\":\"offer\",\"sdp\":\"v=0\\r\\nm=audio\\n\"}");
}

#[test]
fn rtcp_plans_follow_packet_kind() {
    let mut sb = Switchboard::new();
    match plan_rtcp(&mut sb, 1, true, true, false) {
        RtcpPlan::Pli(targets) => assert!(targets.is_empty()),
        _ => panic!("expected a PLI plan"),
    }
    match plan_rtcp(&mut sb, 1, false, false, false) {
        RtcpPlan::Relay(targets) => assert!(targets.is_empty()),
        _ => panic!("expected a relay plan"),
    }
}

#[test]
fn content_kinds_read_from_bits() {
    let spec = SubscriptionSpec {
        publisher_id: "u1".to_string(),
        content_kind: 3,
    };
    let s = Subscription::try_from(&spec).unwrap();
    assert_eq!(s.publisher_id, "u1".to_string());
    assert!(s.kind.contains(ContentKind::audio()));
    assert!(s.kind.contains(ContentKind::video()));
    assert!(!ContentKind::audio().contains(ContentKind::video()));
    assert!(ContentKind::all().contains(ContentKind::video()));
}

#[test]
fn fmtp_lines_carry_the_payload_type() {
    assert_eq!(fmtp_line(111), "111 stereo=0; sprop-stereo=0; usedtx=1;");
    assert_eq!(fmtp_line(0), "0 stereo=0; sprop-stereo=0; usedtx=1;");
    assert_eq!(payload_type_or_default(Some(96)), 96);
    assert_eq!(payload_type_or_default(None), 100);
}

#[test]
fn claims_read_into_tokens() {
    let claims: serde_json::Value =
        serde_json::from_str(r#"{"join_hub":true,"kick_users":false,"room_ids":["alpha","beta"]}"#)
            .unwrap();
    let t = janus_sfu::auth::claims_to_token(&claims).unwrap();
    assert!(t.join_hub);
    assert!(!t.kick_users);
    assert_eq!(
        t.room_ids,
        Some(vec!["alpha".to_string(), "beta".to_string()])
    );

    // absent claims default to false and unrestricted
    let empty: serde_json::Value = serde_json::from_str("{}").unwrap();
    let t = janus_sfu::auth::claims_to_token(&empty).unwrap();
    assert!(!t.join_hub);
    assert!(!t.kick_users);
    assert_eq!(t.room_ids, None);

    // a null restriction is unrestricted; ill-typed claims are errors
    let nullish: serde_json::Value =
        serde_json::from_str(r#"{"join_hub":true,"room_ids":null}"#).unwrap();
    assert_eq!(
        janus_sfu::auth::claims_to_token(&nullish).unwrap().room_ids,
        None
    );
    let bad_bool: serde_json::Value = serde_json::from_str(r#"{"join_hub":"yes"}"#).unwrap();
    assert!(janus_sfu::auth::claims_to_token(&bad_bool).is_err());
    let bad_rooms: serde_json::Value = serde_json::from_str(r#"{"room_ids":[5]}"#).unwrap();
    assert!(janus_sfu::auth::claims_to_token(&bad_rooms).is_err());
}

#[test]
fn kick_decisions_follow_the_claims() {
    let mut sb = Switchboard::new();
    sb.connect(janus_sfu::sessions::Session::new(1));
    sb.set_join_state_of(
        1,
        janus_sfu::sessions::JoinState::new(
            janus_sfu::sessions::JoinKind::Publisher,
            "alpha".to_string(),
            "u1".to_string(),
        ),
    )
    .unwrap();
    sb.join_publisher(1, "u1".to_string(), "alpha".to_string());

    let allowed = ValidatedToken {
        join_hub: true,
        kick_users: true,
        room_ids: None,
    };
    let out =
        janus_sfu::dispatch::process_kick_decided(&sb, Some(allowed), &"u1".to_string()).unwrap();
    assert_eq!(out.end_sessions, vec![1]);

    let denied = ValidatedToken {
        join_hub: true,
        kick_users: false,
        room_ids: None,
    };
    let refused = janus_sfu::dispatch::process_kick_decided(&sb, Some(denied), &"u1".to_string());
    assert_eq!(
        refused.unwrap_err(),
        janus_sfu::dispatch::SfuError::KickDenied
    );
    let invalid = janus_sfu::dispatch::process_kick_decided(&sb, None, &"u1".to_string());
    assert_eq!(
        invalid.unwrap_err(),
        janus_sfu::dispatch::SfuError::KickInvalidToken
    );
}

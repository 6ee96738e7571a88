use open_guandan_server::errors::{ErrorDetails, RuleError};
use open_guandan_server::transport::{
    internal_error_payload, invalid_message, rule_error_payload, status_for_rule_error, validate_action_id,
    validate_card_id, validate_card_payload, validate_play_payload, validate_socket_auth, validated_room_code,
    validated_socket_room_code, HttpError,
};

#[test]
fn room_codes_are_trimmed_measured_and_upper_cased() {
    assert_eq!(validated_socket_room_code("  abcd23 ".into()).unwrap(), "ABCD23");
    let error = validated_socket_room_code("abc".into()).unwrap_err();
    assert_eq!(error.code, "INVALID_MESSAGE");
    assert!(validated_socket_room_code("a".repeat(13)).is_err());
    assert!(matches!(validated_room_code("x".into()), Err(HttpError::InvalidRequest)));
    assert_eq!(validated_room_code("wxyz".into()).unwrap(), "WXYZ");
}

#[test]
fn ids_are_measured_in_utf16_code_units() {
    assert!(validate_action_id("action-01").is_ok());
    assert!(validate_action_id("short").is_err());
    assert!(validate_action_id(&"a".repeat(129)).is_err());
    assert!(validate_action_id(&"😀".repeat(64)).is_ok());
    assert!(validate_action_id(&"😀".repeat(65)).is_err());
    assert!(validate_card_id("0:spade:3").is_ok());
    assert!(validate_card_id("").is_err());
    assert!(validate_card_id(&"c".repeat(81)).is_err());
}

#[test]
fn payload_checks_run_in_order() {
    let cards: Vec<String> = vec!["0:spade:3".into()];
    assert!(validate_play_payload("action-01", &cards).is_ok());
    let error = validate_play_payload("bad", &cards).unwrap_err();
    match error.details {
        Some(ErrorDetails::Messages(messages)) => assert_eq!(messages, ["actionId must contain 8 to 128 characters"]),
        other => panic!("unexpected {other:?}"),
    }
    let eleven: Vec<String> = (0..11).map(|index| format!("card-{index}")).collect();
    assert!(validate_play_payload("action-01", &eleven).is_err());
    assert!(validate_play_payload("action-01", &[]).is_err());
    assert!(validate_play_payload("action-01", &["".to_string()]).is_err());
    assert!(validate_card_payload("action-01", "0:spade:3").is_ok());
    assert!(validate_card_payload("action-01", "").is_err());
}

#[test]
fn socket_identities_are_checked_before_lookup() {
    let token = "t".repeat(43);
    let id = "67e55044-10b1-426f-9247-bb680e5fe0c8";
    assert_eq!(validate_socket_auth(" abcd ".into(), id, &token).unwrap(), "ABCD");
    let error = validate_socket_auth("abcd".into(), "not-a-uuid", &token).unwrap_err();
    assert_eq!(error.code, "INVALID_MESSAGE");
    assert!(validate_socket_auth("abcd".into(), id, "short").is_err());
    assert!(validate_socket_auth("ab".into(), id, &token).is_err());
}

#[test]
fn error_payloads_hide_internal_details() {
    let internal = RuleError::new("INTERNAL_ERROR", "x").with_details(ErrorDetails::Text("secret".into()));
    let payload = rule_error_payload(internal);
    assert_eq!(payload.code, "INTERNAL_ERROR");
    assert!(payload.details.is_none());
    let plain = rule_error_payload(RuleError::new("ROOM_FULL", "m"));
    assert!(matches!(plain.details, Some(ErrorDetails::Null)));
    assert_eq!(internal_error_payload().message, "服务器内部错误");
    assert_eq!(invalid_message("why").code, "INVALID_MESSAGE");
}

#[test]
fn refusals_map_to_http_statuses() {
    for (code, status) in [
        ("ROOM_NOT_FOUND", 404),
        ("INVALID_CREDENTIALS", 401),
        ("DISPLAY_NAME_TAKEN", 409),
        ("ROOM_FULL", 409),
        ("STALE_STATE", 409),
        ("SERVER_BUSY", 503),
        ("INTERNAL_ERROR", 500),
        ("SEAT_OCCUPIED", 400),
    ] {
        assert_eq!(status_for_rule_error(&RuleError::new(code, "m")), status);
    }
    let (status, body) = HttpError::from(RuleError::new("INVALID_DISPLAY_NAME", "m")).response_parts();
    assert_eq!(status, 400);
    assert_eq!(body.code, "INVALID_REQUEST");
    let (status, body) = HttpError::from(RuleError::new("ROOM_NOT_FOUND", "m")).response_parts();
    assert_eq!(status, 404);
    assert_eq!(body.code, "ROOM_NOT_FOUND");
}

#[test]
fn participant_ids_may_take_every_uuid_form() {
    let token = "t".repeat(43);
    for id in [
        "67e5504410b1426f9247bb680e5fe0c8",
        "67E55044-10B1-426F-9247-BB680E5FE0C8",
        "{67e55044-10b1-426f-9247-bb680e5fe0c8}",
        "URN:uuid:67e55044-10b1-426f-9247-bb680e5fe0c8",
    ] {
        assert!(validate_socket_auth("abcd".into(), id, &token).is_ok(), "{id}");
    }
    for id in ["67e55044-10b1-426f-9247-bb680e5fe0c", "67e55044_10b1-426f-9247-bb680e5fe0c8", "{67e55044-10b1-426f-9247-bb680e5fe0c8"] {
        assert!(validate_socket_auth("abcd".into(), id, &token).is_err(), "{id}");
    }
}

use accentd::ipc::{decode_client, decode_daemon, encode_client, encode_daemon, ClientMsg, DaemonMsg};

// --- encoded messages end with newline ---

#[test]
fn encode_produces_trailing_newline() {
    let msg = DaemonMsg::HidePopup;
    let encoded = encode_daemon(&msg);
    assert!(encoded.ends_with('\n'));
}

#[test]
fn encode_produces_single_line() {
    let msg = DaemonMsg::ShowPopup {
        base: "e".into(),
        accents: vec!["è".into(), "é".into()],
        labels: vec![1, 2],
    };
    let encoded = encode_daemon(&msg);
    // Should be exactly one newline at the end
    assert_eq!(encoded.matches('\n').count(), 1);
}

// --- encode then decode round-trips ---

#[test]
fn daemon_msg_hide_popup_round_trips() {
    let msg = DaemonMsg::HidePopup;
    let encoded = encode_daemon(&msg);
    let decoded = decode_daemon(&encoded).expect("should decode");
    assert!(matches!(decoded, DaemonMsg::HidePopup));
}

#[test]
fn daemon_msg_show_popup_round_trips() {
    let msg = DaemonMsg::ShowPopup {
        base: "e".into(),
        accents: vec!["è".into(), "é".into(), "ê".into()],
        labels: vec![1, 2, 3],
    };
    let encoded = encode_daemon(&msg);
    let decoded = decode_daemon(&encoded).expect("should decode");
    match decoded {
        DaemonMsg::ShowPopup {
            base,
            accents,
            labels,
        } => {
            assert_eq!(base, "e");
            assert_eq!(accents, vec!["è", "é", "ê"]);
            assert_eq!(labels, vec![1, 2, 3]);
        }
        _ => panic!("expected ShowPopup"),
    }
}

#[test]
fn daemon_msg_status_round_trips() {
    let msg = DaemonMsg::Status {
        enabled: true,
        locale: "it".into(),
        version: "0.1.0".into(),
    };
    let encoded = encode_daemon(&msg);
    let decoded = decode_daemon(&encoded).expect("should decode");
    match decoded {
        DaemonMsg::Status {
            enabled,
            locale,
            version,
        } => {
            assert!(enabled);
            assert_eq!(locale, "it");
            assert_eq!(version, "0.1.0");
        }
        _ => panic!("expected Status"),
    }
}

#[test]
fn daemon_msg_ack_round_trips() {
    let msg = DaemonMsg::Ack {
        ok: false,
        message: "error".into(),
    };
    let encoded = encode_daemon(&msg);
    let decoded = decode_daemon(&encoded).expect("should decode");
    match decoded {
        DaemonMsg::Ack { ok, message } => {
            assert!(!ok);
            assert_eq!(message, "error");
        }
        _ => panic!("expected Ack"),
    }
}

#[test]
fn client_msg_select_round_trips() {
    let msg = ClientMsg::Select { index: 3 };
    let encoded = encode_client(&msg);
    let decoded = decode_client(&encoded).expect("should decode");
    match decoded {
        ClientMsg::Select { index } => assert_eq!(index, 3),
        _ => panic!("expected Select"),
    }
}

#[test]
fn client_msg_set_locale_round_trips() {
    let msg = ClientMsg::SetLocale {
        locale: "fr".into(),
    };
    let encoded = encode_client(&msg);
    let decoded = decode_client(&encoded).expect("should decode");
    match decoded {
        ClientMsg::SetLocale { locale } => assert_eq!(locale, "fr"),
        _ => panic!("expected SetLocale"),
    }
}

#[test]
fn client_msg_simple_variants_round_trip() {
    for msg in [
        ClientMsg::Dismiss,
        ClientMsg::Toggle,
        ClientMsg::Enable,
        ClientMsg::Disable,
        ClientMsg::GetStatus,
        ClientMsg::RegisterPopup,
    ] {
        let encoded = encode_client(&msg);
        assert!(
            decode_client(&encoded).is_some(),
            "failed to round-trip: {:?}",
            msg
        );
    }
}

// --- empty/whitespace input → None ---

#[test]
fn decode_daemon_returns_none_for_empty() {
    assert!(decode_daemon("").is_none());
    assert!(decode_daemon("   ").is_none());
    assert!(decode_daemon("\n").is_none());
}

#[test]
fn decode_client_returns_none_for_empty() {
    assert!(decode_client("").is_none());
    assert!(decode_client("   ").is_none());
    assert!(decode_client("\n").is_none());
}

// --- invalid JSON → None (not panic) ---

#[test]
fn decode_daemon_returns_none_for_garbage() {
    assert!(decode_daemon("not json").is_none());
    assert!(decode_daemon("{\"type\":\"unknown_variant\"}").is_none());
}

#[test]
fn decode_client_returns_none_for_garbage() {
    assert!(decode_client("not json").is_none());
}

// --- messages use the "type" tag ---

#[test]
fn encoded_messages_contain_type_field() {
    let encoded = encode_daemon(&DaemonMsg::HidePopup);
    assert!(encoded.contains("\"type\""));

    let encoded = encode_client(&ClientMsg::Toggle);
    assert!(encoded.contains("\"type\""));
}

// --- strings with characters the wire format escapes ---

#[test]
fn strings_with_escapes_round_trip() {
    let msg = DaemonMsg::Ack {
        ok: true,
        message: "a \"quoted\" line\nwith a \\ and a\ttab".into(),
    };
    let encoded = encode_daemon(&msg);
    assert_eq!(encoded.matches('\n').count(), 1, "newline must be escaped");
    match decode_daemon(&encoded).expect("should decode") {
        DaemonMsg::Ack { ok, message } => {
            assert!(ok);
            assert_eq!(message, "a \"quoted\" line\nwith a \\ and a\ttab");
        }
        _ => panic!("expected Ack"),
    }
}

#[test]
fn decode_rejects_out_of_range_index() {
    assert!(decode_client("{\"type\":\"select\",\"index\":256}").is_none());
    assert_eq!(
        decode_client("{\"type\":\"select\",\"index\":255}"),
        Some(ClientMsg::Select { index: 255 })
    );
}

#[test]
fn control_characters_round_trip_as_unicode_escapes() {
    let msg = DaemonMsg::Ack {
        ok: true,
        message: "bell \u{7} backspace \u{8} formfeed \u{c} escape \u{1b}".into(),
    };
    let encoded = encode_daemon(&msg);
    assert_eq!(encoded.matches('\n').count(), 1);
    assert!(encoded.contains("\\u0007"));
    assert!(encoded.contains("\\u001b"));
    match decode_daemon(&encoded).expect("should decode") {
        DaemonMsg::Ack { ok, message } => {
            assert!(ok);
            assert_eq!(
                message,
                "bell \u{7} backspace \u{8} formfeed \u{c} escape \u{1b}"
            );
        }
        _ => panic!("expected Ack"),
    }
}

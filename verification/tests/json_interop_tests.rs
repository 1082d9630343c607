//! The wire lines must be real JSON: serde_json must parse what the
//! codec emits and agree on every field, and the codec must read what
//! serde_json emits.

use accentd::ipc::{decode_client, decode_daemon, encode_client, encode_daemon, ClientMsg, DaemonMsg};
use serde_json::Value;

#[test]
fn encoded_show_popup_is_valid_json() {
    let msg = DaemonMsg::ShowPopup {
        base: "e".into(),
        accents: vec!["è".into(), "é".into()],
        labels: vec![1, 2],
    };
    let line = encode_daemon(&msg);
    let v: Value = serde_json::from_str(line.trim_end()).expect("valid JSON");
    assert_eq!(v["type"], "show_popup");
    assert_eq!(v["base"], "e");
    assert_eq!(v["accents"][0], "è");
    assert_eq!(v["accents"][1], "é");
    assert_eq!(v["labels"][0], 1);
    assert_eq!(v["labels"][1], 2);
}

#[test]
fn encoded_ack_with_escapes_is_valid_json() {
    let msg = DaemonMsg::Ack {
        ok: false,
        message: "line\nwith \"quotes\" and \\slashes\\".into(),
    };
    let line = encode_daemon(&msg);
    let v: Value = serde_json::from_str(line.trim_end()).expect("valid JSON");
    assert_eq!(v["ok"], false);
    assert_eq!(v["message"], "line\nwith \"quotes\" and \\slashes\\");
}

#[test]
fn encoded_control_characters_are_valid_json() {
    let msg = DaemonMsg::Ack {
        ok: true,
        message: "a\u{1}b\u{1f}c".into(),
    };
    let line = encode_daemon(&msg);
    let v: Value = serde_json::from_str(line.trim_end()).expect("valid JSON");
    assert_eq!(v["message"], "a\u{1}b\u{1f}c");
}

#[test]
fn encoded_client_messages_are_valid_json() {
    for (msg, tag) in [
        (ClientMsg::Select { index: 4 }, "select"),
        (ClientMsg::Dismiss, "dismiss"),
        (ClientMsg::Toggle, "toggle"),
        (ClientMsg::Enable, "enable"),
        (ClientMsg::Disable, "disable"),
        (
            ClientMsg::SetLocale {
                locale: "de".into(),
            },
            "set_locale",
        ),
        (ClientMsg::GetStatus, "get_status"),
        (ClientMsg::RegisterPopup, "register_popup"),
    ] {
        let line = encode_client(&msg);
        let v: Value = serde_json::from_str(line.trim_end()).expect("valid JSON");
        assert_eq!(v["type"], tag);
    }
}

#[test]
fn serde_emitted_lines_decode() {
    // serde_json writes struct-variant fields in declaration order,
    // which is the canonical order the decoder reads.
    let select = "{\"type\":\"select\",\"index\":2}";
    assert_eq!(
        decode_client(select),
        Some(ClientMsg::Select { index: 2 })
    );
    let status = "{\"type\":\"status\",\"enabled\":false,\"locale\":\"fr\",\"version\":\"1.2.3\"}";
    match decode_daemon(status).expect("should decode") {
        DaemonMsg::Status {
            enabled,
            locale,
            version,
        } => {
            assert!(!enabled);
            assert_eq!(locale, "fr");
            assert_eq!(version, "1.2.3");
        }
        _ => panic!("expected Status"),
    }
}

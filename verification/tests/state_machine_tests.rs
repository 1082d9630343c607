use accentd::charmap::builtin_locale;
use accentd::config::Config;
use accentd::events::InputEvent;
use accentd::ipc::DaemonMsg;
use accentd::state_machine::{Action, StateMachine};

// evdev keycodes from Linux input-event-codes.h:
const KEY_A: u16 = 30;
const KEY_E: u16 = 18;
const KEY_F: u16 = 33; // not accent-eligible
const KEY_1: u16 = 2;
const KEY_2: u16 = 3;
const KEY_9: u16 = 10;
const KEY_ESC: u16 = 1;
const KEY_LEFTCTRL: u16 = 29;
const KEY_LEFTALT: u16 = 56;
const KEY_LEFTMETA: u16 = 125;
const KEY_LEFTSHIFT: u16 = 42;

const EV_KEY: u16 = 1;
const EV_SYN: u16 = 0;

fn key_press(code: u16) -> InputEvent {
    InputEvent::new(EV_KEY, code, 1)
}
fn key_release(code: u16) -> InputEvent {
    InputEvent::new(EV_KEY, code, 0)
}
fn key_repeat(code: u16) -> InputEvent {
    InputEvent::new(EV_KEY, code, 2)
}

fn make_sm() -> StateMachine {
    let config = Config::default(); // threshold=300ms, enabled=true
    let locale_map = builtin_locale("it");
    StateMachine::new(&config, locale_map)
}

fn has_relay(actions: &[Action]) -> bool {
    actions.iter().any(|a| matches!(a, Action::Relay(_)))
}
fn has_suppress(actions: &[Action]) -> bool {
    actions.iter().any(|a| matches!(a, Action::Suppress))
}
fn has_emit_accent(actions: &[Action]) -> Option<&str> {
    actions.iter().find_map(|a| match a {
        Action::EmitAccent(s) => Some(s.as_str()),
        _ => None,
    })
}
fn has_show_popup(actions: &[Action]) -> bool {
    actions
        .iter()
        .any(|a| matches!(a, Action::SendPopup(DaemonMsg::ShowPopup { .. })))
}
fn has_hide_popup(actions: &[Action]) -> bool {
    actions
        .iter()
        .any(|a| matches!(a, Action::SendPopup(DaemonMsg::HidePopup)))
}

// === Press accent key → emit immediately (zero latency) ===

#[test]
fn press_accent_key_relays_immediately() {
    let mut sm = make_sm();
    let actions = sm.process_event(key_press(KEY_E), 0);
    assert!(has_relay(&actions), "pressing 'e' should relay immediately");
}

// === Press non-accent key → relay normally, no hold ===

#[test]
fn press_non_accent_key_relays_and_stays_idle() {
    let mut sm = make_sm();
    let actions = sm.process_event(key_press(KEY_F), 0);
    assert!(has_relay(&actions));
    assert!(sm.is_idle());
}

// === Release before threshold → cancel, base char stays ===

#[test]
fn release_before_threshold_cancels_hold() {
    let mut sm = make_sm();
    sm.process_event(key_press(KEY_E), 0);
    let actions = sm.process_event(key_release(KEY_E), 50);
    assert!(has_relay(&actions), "release should be relayed");
    assert!(sm.is_idle(), "should return to idle");
}

// === Another key before threshold → cancel hold ===

#[test]
fn another_key_before_threshold_cancels_hold() {
    let mut sm = make_sm();
    sm.process_event(key_press(KEY_E), 0);
    // Type another key quickly (fast typist)
    let actions = sm.process_event(key_press(KEY_F), 20);
    assert!(has_relay(&actions), "other key should be relayed");
    assert!(sm.is_idle(), "should return to idle");
}

// === Key repeat while holding → suppressed ===

#[test]
fn repeat_during_hold_is_suppressed() {
    let mut sm = make_sm();
    sm.process_event(key_press(KEY_E), 0);
    let actions = sm.process_event(key_repeat(KEY_E), 100);
    assert!(has_suppress(&actions), "repeat should be suppressed");
    assert!(!has_relay(&actions), "repeat should NOT be relayed");
}

// === Hold past threshold → popup appears ===

#[test]
fn hold_past_threshold_shows_popup() {
    let mut sm = make_sm();
    sm.process_event(key_press(KEY_E), 0);
    let actions = sm.check_timer(350);
    assert!(has_show_popup(&actions), "popup should appear after threshold");
    assert!(
        has_relay(&actions),
        "should emit synthetic key release to stop autorepeat"
    );
    assert!(!sm.is_idle(), "should not be idle (should be in popup state)");
}

// === Timer doesn't fire before threshold ===

#[test]
fn timer_does_not_fire_before_threshold() {
    let mut sm = make_sm();
    sm.process_event(key_press(KEY_E), 0);
    let actions = sm.check_timer(10);
    assert!(actions.is_empty(), "timer should not fire immediately");
}

// === Threshold transition must release key to stop display server autorepeat ===

#[test]
fn threshold_emits_key_release_to_stop_autorepeat() {
    let mut sm = make_sm();
    sm.process_event(key_press(KEY_E), 0);
    let actions = sm.check_timer(350);

    // Must contain a release event (value=0) for KEY_E before the ShowPopup
    let release_idx = actions.iter().position(|a| match a {
        Action::Relay(ev) => ev.code == KEY_E && ev.value == 0,
        _ => false,
    });
    let popup_idx = actions
        .iter()
        .position(|a| matches!(a, Action::SendPopup(DaemonMsg::ShowPopup { .. })));

    assert!(release_idx.is_some(), "must emit key release to stop autorepeat");
    assert!(popup_idx.is_some(), "must show popup");
    assert!(
        release_idx.unwrap() < popup_idx.unwrap(),
        "release must come before popup"
    );
}

// === In popup, press digit → select accent ===

#[test]
fn popup_digit_selects_accent() {
    let mut sm = make_sm();
    sm.process_event(key_press(KEY_E), 0);
    sm.check_timer(350); // triggers popup

    // Press '1' to select first accent (è for Italian 'e')
    let actions = sm.process_event(key_press(KEY_1), 400);
    assert!(has_hide_popup(&actions), "popup should hide");
    assert_eq!(
        has_emit_accent(&actions),
        Some("è"),
        "should emit first Italian 'e' accent"
    );
    assert!(sm.is_idle());
}

#[test]
fn popup_digit_2_selects_second_accent() {
    let mut sm = make_sm();
    sm.process_event(key_press(KEY_E), 0);
    sm.check_timer(350);

    let actions = sm.process_event(key_press(KEY_2), 400);
    assert_eq!(
        has_emit_accent(&actions),
        Some("é"),
        "should emit second Italian 'e' accent"
    );
}

// === In popup, out-of-range digit → no accent emitted ===

#[test]
fn popup_out_of_range_digit_dismisses() {
    let mut sm = make_sm();
    sm.process_event(key_press(KEY_E), 0);
    sm.check_timer(350);

    // Italian 'e' has 4 accents, press 9
    let actions = sm.process_event(key_press(KEY_9), 400);
    assert!(
        has_emit_accent(&actions).is_none(),
        "should not emit accent for out-of-range digit"
    );
    assert!(has_hide_popup(&actions), "popup should dismiss");
}

// === In popup, ESC → dismiss, base char stays ===

#[test]
fn popup_esc_dismisses() {
    let mut sm = make_sm();
    sm.process_event(key_press(KEY_E), 0);
    sm.check_timer(350);

    let actions = sm.process_event(key_press(KEY_ESC), 400);
    assert!(has_hide_popup(&actions));
    assert!(
        has_emit_accent(&actions).is_none(),
        "ESC should not emit any accent"
    );
    assert!(sm.is_idle());
}

// === In popup, release held key → dismiss ===

#[test]
fn popup_release_held_key_dismisses() {
    let mut sm = make_sm();
    sm.process_event(key_press(KEY_E), 0);
    sm.check_timer(350);

    let actions = sm.process_event(key_release(KEY_E), 400);
    assert!(has_hide_popup(&actions));
    assert!(has_emit_accent(&actions).is_none());
    assert!(sm.is_idle());
}

// === In popup, repeat of held key → suppressed ===

#[test]
fn popup_repeat_held_key_is_suppressed() {
    let mut sm = make_sm();
    sm.process_event(key_press(KEY_E), 0);
    sm.check_timer(350);

    let actions = sm.process_event(key_repeat(KEY_E), 400);
    assert!(has_suppress(&actions));
    assert!(!has_relay(&actions));
}

// === Ctrl/Alt/Super + letter → no hold, relay as-is ===

#[test]
fn ctrl_plus_letter_does_not_start_hold() {
    let mut sm = make_sm();
    sm.process_event(key_press(KEY_LEFTCTRL), 0);
    sm.process_event(key_press(KEY_A), 10);
    assert!(sm.is_idle(), "Ctrl+A should not start hold detection");
}

#[test]
fn alt_plus_letter_does_not_start_hold() {
    let mut sm = make_sm();
    sm.process_event(key_press(KEY_LEFTALT), 0);
    sm.process_event(key_press(KEY_E), 10);
    assert!(sm.is_idle());
}

#[test]
fn super_plus_letter_does_not_start_hold() {
    let mut sm = make_sm();
    sm.process_event(key_press(KEY_LEFTMETA), 0);
    sm.process_event(key_press(KEY_E), 10);
    assert!(sm.is_idle());
}

// === Shift + letter → uppercase accents ===

#[test]
fn shift_plus_letter_produces_uppercase_accents() {
    let mut sm = make_sm();
    sm.process_event(key_press(KEY_LEFTSHIFT), 0);
    sm.process_event(key_press(KEY_E), 10);
    let timer_actions = sm.check_timer(360);
    assert!(has_show_popup(&timer_actions));

    // Check the popup contains uppercase accents
    let show = timer_actions
        .iter()
        .find_map(|a| match a {
            Action::SendPopup(DaemonMsg::ShowPopup { accents, .. }) => Some(accents),
            _ => None,
        })
        .expect("should have ShowPopup");
    assert_eq!(show[0], "È");
    assert_eq!(show[1], "É");
}

// === Disabled → all keys relayed, no hold ===

#[test]
fn disabled_relays_everything() {
    let mut sm = make_sm();
    sm.set_enabled(false);
    let actions = sm.process_event(key_press(KEY_E), 0);
    assert!(has_relay(&actions));
    assert!(sm.is_idle());
}

// === Non-key events always relayed ===

#[test]
fn non_key_events_always_relayed() {
    let mut sm = make_sm();
    // EV_SYN event
    let syn = InputEvent::new(EV_SYN, 0, 0);
    let actions = sm.process_event(syn, 0);
    assert!(has_relay(&actions));
}

// === ShowPopup labels are 1-indexed ===

#[test]
fn show_popup_labels_are_1_indexed() {
    let mut sm = make_sm();
    sm.process_event(key_press(KEY_E), 0);
    let actions = sm.check_timer(350);
    let labels = actions
        .iter()
        .find_map(|a| match a {
            Action::SendPopup(DaemonMsg::ShowPopup { labels, .. }) => Some(labels),
            _ => None,
        })
        .expect("should have ShowPopup");
    assert_eq!(labels[0], 1);
    assert_eq!(*labels.last().unwrap(), labels.len() as u8);
}

// === 'a' key with Italian locale has 5 accents ===

#[test]
fn italian_a_popup_has_5_accents() {
    let mut sm = make_sm();
    sm.process_event(key_press(KEY_A), 0);
    let actions = sm.check_timer(350);
    let accents = actions
        .iter()
        .find_map(|a| match a {
            Action::SendPopup(DaemonMsg::ShowPopup { accents, .. }) => Some(accents),
            _ => None,
        })
        .expect("should have ShowPopup");
    assert_eq!(accents.len(), 5);
    assert_eq!(accents[0], "à");
}

// === Modifier released → subsequent letters should hold ===

#[test]
fn modifier_release_allows_hold_again() {
    let mut sm = make_sm();
    // Press and release Ctrl
    sm.process_event(key_press(KEY_LEFTCTRL), 0);
    sm.process_event(key_release(KEY_LEFTCTRL), 10);
    // Now press 'e' — should start hold
    sm.process_event(key_press(KEY_E), 20);
    assert!(
        !sm.is_idle(),
        "should be in holding state after modifier released"
    );
}

// === IPC select → emit accent if in popup state ===

fn enter_popup(sm: &mut StateMachine) {
    sm.process_event(key_press(KEY_E), 0);
    sm.check_timer(350);
}

#[test]
fn ipc_select_emits_accent_in_popup_state() {
    let mut sm = make_sm();
    enter_popup(&mut sm);

    let actions = sm.ipc_select(1);
    assert!(has_hide_popup(&actions));
    assert_eq!(has_emit_accent(&actions), Some("è"));
    assert!(sm.is_idle());
}

#[test]
fn ipc_select_returns_empty_when_idle() {
    let mut sm = make_sm();
    let actions = sm.ipc_select(1);
    assert!(actions.is_empty());
}

// === IPC dismiss → hide popup if in popup state ===

#[test]
fn ipc_dismiss_hides_popup() {
    let mut sm = make_sm();
    enter_popup(&mut sm);

    let actions = sm.ipc_dismiss();
    assert!(has_hide_popup(&actions));
    assert!(has_emit_accent(&actions).is_none());
    assert!(sm.is_idle());
}

#[test]
fn ipc_dismiss_returns_empty_when_idle() {
    let mut sm = make_sm();
    let actions = sm.ipc_dismiss();
    assert!(actions.is_empty());
}

// === Popup auto-timeout ===

#[test]
fn popup_times_out_after_timeout_ms() {
    let mut config = Config::default();
    config.popup.timeout_ms = 50; // short timeout for test
    let locale_map = builtin_locale("it");
    let mut sm = StateMachine::new(&config, locale_map);

    sm.process_event(key_press(KEY_E), 0);
    sm.check_timer(350); // enters popup

    let actions = sm.check_timer(410);
    assert!(
        has_hide_popup(&actions),
        "popup should auto-dismiss after timeout"
    );
    assert!(sm.is_idle());
}

// === next_deadline ===

#[test]
fn next_deadline_is_none_when_idle() {
    let sm = make_sm();
    assert!(sm.next_deadline().is_none());
}

#[test]
fn next_deadline_is_some_when_holding() {
    let mut sm = make_sm();
    sm.process_event(key_press(KEY_E), 0);
    assert!(sm.next_deadline().is_some());
}

#[test]
fn next_deadline_is_some_when_popup() {
    let mut sm = make_sm();
    enter_popup(&mut sm);
    assert!(sm.next_deadline().is_some());
}

// === Deadlines are exact and stable within a state ===

#[test]
fn deadline_is_press_time_plus_threshold() {
    let mut sm = make_sm();
    sm.process_event(key_press(KEY_E), 100);
    assert_eq!(sm.next_deadline(), Some(400));
    // a suppressed repeat does not move the deadline
    sm.process_event(key_repeat(KEY_E), 200);
    assert_eq!(sm.next_deadline(), Some(400));
    // entering the popup re-bases the deadline on the popup timeout
    sm.check_timer(400);
    assert_eq!(sm.next_deadline(), Some(400 + 5000));
}

// === Ctrl+E scenario: both presses relayed, machine stays Idle ===

#[test]
fn ctrl_e_relays_both_and_stays_idle() {
    let mut sm = make_sm();
    let a1 = sm.process_event(key_press(KEY_LEFTCTRL), 0);
    assert!(has_relay(&a1));
    let a2 = sm.process_event(key_press(KEY_E), 10);
    assert!(has_relay(&a2));
    assert!(sm.is_idle());
    assert!(sm.next_deadline().is_none());
}

// === In popup, out-of-range digit dismisses without relaying it ===

#[test]
fn out_of_range_digit_is_not_relayed() {
    let mut sm = make_sm();
    sm.process_event(key_press(KEY_E), 0);
    sm.check_timer(350);

    // Italian 'e' has 4 accents; '9' is out of range
    let actions = sm.process_event(key_press(KEY_9), 400);
    assert!(!has_relay(&actions), "the stray digit must not reach the application");
    assert_eq!(actions.len(), 1);
    assert!(has_hide_popup(&actions));
    assert!(sm.is_idle());
}

// === IPC select out of range dismisses, like the digit press ===

#[test]
fn ipc_select_out_of_range_dismisses() {
    let mut sm = make_sm();
    enter_popup(&mut sm);

    let actions = sm.ipc_select(9);
    assert!(has_hide_popup(&actions));
    assert!(has_emit_accent(&actions).is_none());
    assert!(sm.is_idle());

    // index 0 is below the 1-indexed range and also dismisses
    let mut sm = make_sm();
    enter_popup(&mut sm);
    let actions = sm.ipc_select(0);
    assert!(has_hide_popup(&actions));
    assert!(sm.is_idle());
}

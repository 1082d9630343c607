use accentd::charmap::builtin_locale;
use accentd::config::Config;
use accentd::events::InputEvent;
use accentd::ipc::DaemonMsg;
use accentd::state_machine::{Action, StateMachine};
use accentd::supervisor::{
    ack_locale_failed, ack_ok, check_all_timers, dismiss_all, earliest_deadline, keep_device,
    select_first_popup, set_all_enabled, status_of, toggle_all, PanicRing,
};

const KEY_E: u16 = 18;
const EV_KEY: u16 = 1;

fn press_e() -> InputEvent {
    InputEvent::new(EV_KEY, KEY_E, 1)
}

fn machines(n: usize) -> Vec<StateMachine> {
    let config = Config::default();
    (0..n)
        .map(|_| StateMachine::new(&config, builtin_locale("it")))
        .collect()
}

fn has_emit(actions: &[Action]) -> bool {
    actions.iter().any(|a| matches!(a, Action::EmitAccent(_)))
}

#[test]
fn earliest_deadline_is_minimum_over_machines() {
    let mut ms = machines(3);
    assert_eq!(earliest_deadline(&ms), None);
    ms[1].process_event(press_e(), 500);
    ms[2].process_event(press_e(), 100);
    // threshold is 300 ms, so deadlines are 800 and 400
    assert_eq!(earliest_deadline(&ms), Some(400));
}

#[test]
fn check_all_timers_fires_only_due_machines() {
    let mut ms = machines(2);
    ms[0].process_event(press_e(), 0);
    ms[1].process_event(press_e(), 1000);
    let actions = check_all_timers(&mut ms, 350);
    // only the first machine crossed its threshold
    assert!(actions
        .iter()
        .any(|a| matches!(a, Action::SendPopup(DaemonMsg::ShowPopup { .. }))));
    assert!(!ms[0].is_idle());
    assert!(!ms[1].is_idle());
    assert_eq!(ms[1].next_deadline(), Some(1300));
}

#[test]
fn select_goes_to_first_machine_in_popup() {
    let mut ms = machines(3);
    ms[2].process_event(press_e(), 0);
    check_all_timers(&mut ms, 350);
    let actions = select_first_popup(&mut ms, 1);
    assert!(has_emit(&actions));
    assert!(ms[2].is_idle());
}

#[test]
fn select_out_of_range_dismisses_first_popup() {
    let mut ms = machines(2);
    ms[1].process_event(press_e(), 0);
    check_all_timers(&mut ms, 350);
    let actions = select_first_popup(&mut ms, 9);
    assert!(!has_emit(&actions));
    assert!(actions
        .iter()
        .any(|a| matches!(a, Action::SendPopup(DaemonMsg::HidePopup))));
    assert!(ms[1].is_idle());
}

#[test]
fn select_with_no_popup_does_nothing() {
    let mut ms = machines(2);
    let actions = select_first_popup(&mut ms, 1);
    assert!(actions.is_empty());
}

#[test]
fn dismiss_all_hides_every_popup() {
    let mut ms = machines(2);
    ms[0].process_event(press_e(), 0);
    ms[1].process_event(press_e(), 0);
    check_all_timers(&mut ms, 350);
    let actions = dismiss_all(&mut ms);
    let hides = actions
        .iter()
        .filter(|a| matches!(a, Action::SendPopup(DaemonMsg::HidePopup)))
        .count();
    assert_eq!(hides, 2);
    assert!(ms[0].is_idle() && ms[1].is_idle());
}

#[test]
fn toggle_all_flips_by_first_machine() {
    let mut ms = machines(2);
    assert_eq!(toggle_all(&mut ms), false);
    assert!(!ms[0].is_enabled() && !ms[1].is_enabled());
    assert_eq!(toggle_all(&mut ms), true);
    assert!(ms[0].is_enabled() && ms[1].is_enabled());
}

#[test]
fn disabling_forces_idle_everywhere() {
    let mut ms = machines(2);
    ms[0].process_event(press_e(), 0);
    set_all_enabled(&mut ms, false);
    assert!(ms[0].is_idle());
    assert_eq!(earliest_deadline(&ms), None);
}

#[test]
fn status_reports_first_machine() {
    let ms = machines(1);
    match status_of(&ms, "it", "0.1.0") {
        DaemonMsg::Status {
            enabled,
            locale,
            version,
        } => {
            assert!(enabled);
            assert_eq!(locale, "it");
            assert_eq!(version, "0.1.0");
        }
        _ => panic!("expected Status"),
    }
}

#[test]
fn ack_wordings_match_the_protocol() {
    match ack_ok("enabled") {
        DaemonMsg::Ack { ok, message } => {
            assert!(ok);
            assert_eq!(message, "enabled");
        }
        _ => panic!("expected Ack"),
    }
    match ack_locale_failed("zz", "locale 'zz' not found") {
        DaemonMsg::Ack { ok, message } => {
            assert!(!ok);
            assert_eq!(message, "failed to load locale 'zz': locale 'zz' not found");
        }
        _ => panic!("expected Ack"),
    }
}

// --- the panic escape ring ---

#[test]
fn panic_chord_within_one_second_fires() {
    let mut ring = PanicRing::new();
    assert!(!ring.record(14, 100)); // Backspace
    assert!(!ring.record(1, 300)); // Escape
    assert!(ring.record(28, 900)); // Enter, span 800 ms
}

#[test]
fn panic_chord_too_slow_does_not_fire() {
    let mut ring = PanicRing::new();
    assert!(!ring.record(14, 0));
    assert!(!ring.record(1, 600));
    assert!(!ring.record(28, 1200)); // span 1200 ms >= 1000
}

#[test]
fn panic_chord_wrong_order_does_not_fire() {
    let mut ring = PanicRing::new();
    assert!(!ring.record(1, 0));
    assert!(!ring.record(14, 10));
    assert!(!ring.record(28, 20));
}

#[test]
fn panic_ring_slides_over_older_presses() {
    let mut ring = PanicRing::new();
    assert!(!ring.record(30, 0)); // some other key first
    assert!(!ring.record(14, 10));
    assert!(!ring.record(1, 20));
    assert!(ring.record(28, 30));
}

// --- the keyboard keep/skip decision ---

#[test]
fn keep_device_requires_letters_and_not_own_device() {
    assert!(keep_device(false, true, true, true));
    assert!(!keep_device(true, true, true, true)); // the daemon's own virtual device
    assert!(!keep_device(false, false, true, true));
    assert!(!keep_device(false, true, false, true));
    assert!(!keep_device(false, true, true, false));
}

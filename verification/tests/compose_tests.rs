use accentd::compose::{emission_plan, hex_char_to_key, EmitStep};
use accentd::events::InputEvent;

const EV_KEY: u16 = 1;
const KEY_BACKSPACE: u16 = 14;
const KEY_LEFTCTRL: u16 = 29;
const KEY_LEFTSHIFT: u16 = 42;
const KEY_U: u16 = 22;
const KEY_ENTER: u16 = 28;
const KEY_0: u16 = 11;
const KEY_E: u16 = 18;
const KEY_8: u16 = 9;

/// The emit batches of a plan, in order; the pauses in between are
/// dropped.
fn batches(plan: &[EmitStep]) -> Vec<Vec<InputEvent>> {
    plan.iter()
        .filter_map(|s| match s {
            EmitStep::Batch(evs) => Some(evs.clone()),
            EmitStep::SleepMs(_) => None,
        })
        .collect()
}

/// The (key_code, value) pairs of one batch, syn events dropped.
fn key_events(batch: &[InputEvent]) -> Vec<(u16, i32)> {
    batch
        .iter()
        .filter(|e| e.event_type == EV_KEY)
        .map(|e| (e.code, e.value))
        .collect()
}

/// All (key_code, value) pairs across the whole plan, syn events
/// dropped.
fn all_key_events(plan: &[EmitStep]) -> Vec<(u16, i32)> {
    batches(plan)
        .iter()
        .flat_map(|b| key_events(b))
        .collect()
}

#[test]
fn modifier_presses_are_separate_emits() {
    let plan = emission_plan("è");
    let bs = batches(&plan);
    // Batch 2 = Ctrl↓, batch 3 = Shift↓ (after BS↓, BS↑)
    assert_eq!(key_events(&bs[2]), vec![(KEY_LEFTCTRL, 1)]);
    assert_eq!(key_events(&bs[3]), vec![(KEY_LEFTSHIFT, 1)]);
}

#[test]
fn modifier_releases_are_separate_emits() {
    let plan = emission_plan("è");
    let bs = batches(&plan);
    // After U tap (batches 4,5), Shift↑ = batch 6, Ctrl↑ = batch 7
    assert_eq!(key_events(&bs[6]), vec![(KEY_LEFTSHIFT, 0)]);
    assert_eq!(key_events(&bs[7]), vec![(KEY_LEFTCTRL, 0)]);
}

#[test]
fn key_tap_is_two_emits() {
    let plan = emission_plan("è");
    let bs = batches(&plan);
    // Backspace tap = batches 0 (press) and 1 (release)
    assert_eq!(key_events(&bs[0]), vec![(KEY_BACKSPACE, 1)]);
    assert_eq!(key_events(&bs[1]), vec![(KEY_BACKSPACE, 0)]);
    // U tap = batches 4 (press) and 5 (release)
    assert_eq!(key_events(&bs[4]), vec![(KEY_U, 1)]);
    assert_eq!(key_events(&bs[5]), vec![(KEY_U, 0)]);
}

#[test]
fn hex_digits_are_one_emit() {
    let plan = emission_plan("è");
    let bs = batches(&plan);
    // Last batch (8) contains all hex digit press/release pairs + Enter
    let key_evs = key_events(bs.last().unwrap());
    // è = U+00E8 → 4 hex digits + Enter = 5 key taps = 10 key events
    assert_eq!(key_evs.len(), 10);
}

#[test]
fn full_event_sequence() {
    let plan = emission_plan("è");
    let events = all_key_events(&plan);
    let expected = vec![
        // BS tap
        (KEY_BACKSPACE, 1),
        (KEY_BACKSPACE, 0),
        // Ctrl+Shift+U chord
        (KEY_LEFTCTRL, 1),
        (KEY_LEFTSHIFT, 1),
        (KEY_U, 1),
        (KEY_U, 0),
        (KEY_LEFTSHIFT, 0),
        (KEY_LEFTCTRL, 0),
        // hex 00e8 + Enter
        (KEY_0, 1),
        (KEY_0, 0),
        (KEY_0, 1),
        (KEY_0, 0),
        (KEY_E, 1),
        (KEY_E, 0),
        (KEY_8, 1),
        (KEY_8, 0),
        (KEY_ENTER, 1),
        (KEY_ENTER, 0),
    ];
    assert_eq!(events, expected);
}

#[test]
fn emit_accent_for_e_grave() {
    let plan = emission_plan("è");
    let bs = batches(&plan);
    // è = U+00E8 → hex digit presses in the last batch should be 0, 0, E, 8
    let hex_keys: Vec<u16> = key_events(bs.last().unwrap())
        .iter()
        .filter(|(_, v)| *v == 1) // just presses
        .map(|(c, _)| *c)
        .collect();
    // 4 hex digit presses + Enter press
    assert_eq!(hex_keys, vec![KEY_0, KEY_0, KEY_E, KEY_8, KEY_ENTER]);
}

#[test]
fn hex_char_to_key_maps_all_hex_digits() {
    assert_eq!(hex_char_to_key('0'), 11);
    assert_eq!(hex_char_to_key('1'), 2);
    assert_eq!(hex_char_to_key('2'), 3);
    assert_eq!(hex_char_to_key('3'), 4);
    assert_eq!(hex_char_to_key('4'), 5);
    assert_eq!(hex_char_to_key('5'), 6);
    assert_eq!(hex_char_to_key('6'), 7);
    assert_eq!(hex_char_to_key('7'), 8);
    assert_eq!(hex_char_to_key('8'), 9);
    assert_eq!(hex_char_to_key('9'), 10);
    assert_eq!(hex_char_to_key('a'), 30);
    assert_eq!(hex_char_to_key('b'), 48);
    assert_eq!(hex_char_to_key('c'), 46);
    assert_eq!(hex_char_to_key('d'), 32);
    assert_eq!(hex_char_to_key('e'), 18);
    assert_eq!(hex_char_to_key('f'), 33);
}

#[test]
fn sleeps_follow_the_pacing_protocol() {
    let plan = emission_plan("è");
    // First step: wait for the popup window to hide.
    assert!(matches!(plan[0], EmitStep::SleepMs(50)));
    // Every emit before the final hex batch is followed by a pause.
    let sleeps: Vec<u64> = plan
        .iter()
        .filter_map(|s| match s {
            EmitStep::SleepMs(ms) => Some(*ms),
            _ => None,
        })
        .collect();
    assert_eq!(sleeps, vec![50, 3, 3, 5, 3, 3, 3, 3, 3, 3, 5]);
}

#[test]
fn ligature_emits_single_codepoint() {
    // æ = U+00E6: one codepoint, hex 00e6
    let plan = emission_plan("æ");
    let bs = batches(&plan);
    let hex_keys: Vec<u16> = key_events(bs.last().unwrap())
        .iter()
        .filter(|(_, v)| *v == 1)
        .map(|(c, _)| *c)
        .collect();
    assert_eq!(hex_keys, vec![KEY_0, KEY_0, KEY_E, hex_char_to_key('6'), KEY_ENTER]);
}

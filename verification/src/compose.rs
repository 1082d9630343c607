//! The accent emission plan: the exact sequence of virtual-device
//! batches and pauses that replaces the committed base character with
//! the chosen accent through the Ctrl+Shift+U hex-input chord.
//!
//! The plan is pure data. The caller walks it, emitting each batch on
//! the virtual device and sleeping for each pause; the pauses give the
//! kernel and the application time to register modifier changes and to
//! enter hex-input mode.

use crate::events::{
    InputEvent, EV_KEY, EV_SYN, KEY_BACKSPACE, KEY_ENTER, KEY_LEFTCTRL, KEY_LEFTSHIFT,
    VAL_PRESS, VAL_RELEASE,
};
use vstd::prelude::*;
use vstd::string::StrSliceExecFns;

verus! {

/// evdev keycode of the U key.
pub const KEY_U: u16 = 22;

/// Pause before anything: let the popup hide and focus return.
pub const DELAY_POPUP_HIDE_MS: u64 = 50;

/// Pause after the backspace, before the chord starts.
pub const DELAY_AFTER_BACKSPACE_MS: u64 = 5;

/// Pause between individual emits: modifier changes need a kernel
/// round-trip each to register in order.
pub const DELAY_BETWEEN_EMITS_MS: u64 = 3;

/// Pause after the chord: the application enters hex-input mode.
pub const DELAY_AFTER_CHORD_MS: u64 = 5;

/// One step of the emission protocol.
#[derive(Debug)]
pub enum EmitStep {
    /// Hand these events to the virtual device in a single emit.
    Batch(Vec<InputEvent>),
    /// Pause for this many milliseconds.
    SleepMs(u64),
}

/// The abstract value of an `EmitStep`.
pub enum EmitStepV {
    Batch(Seq<InputEvent>),
    SleepMs(u64),
}

impl DeepView for EmitStep {
    type V = EmitStepV;

    open spec fn deep_view(&self) -> EmitStepV {
        match self {
            EmitStep::Batch(evs) => EmitStepV::Batch(evs@),
            EmitStep::SleepMs(ms) => EmitStepV::SleepMs(*ms),
        }
    }
}

/// A synchronization event.
pub open spec fn spec_syn() -> InputEvent {
    InputEvent { event_type: EV_SYN, code: 0, value: 0 }
}

/// A key event.
pub open spec fn spec_key(code: u16, value: i32) -> InputEvent {
    InputEvent { event_type: EV_KEY, code, value }
}

/// The batch for one key state change: the event and its syn.
pub open spec fn spec_key_batch(code: u16, value: i32) -> Seq<InputEvent> {
    seq![spec_key(code, value), spec_syn()]
}

/// The character for a hex digit value 0 through 15, lowercase.
pub open spec fn spec_hex_char(d: u32) -> char {
    if d == 0 {
        '0'
    } else if d == 1 {
        '1'
    } else if d == 2 {
        '2'
    } else if d == 3 {
        '3'
    } else if d == 4 {
        '4'
    } else if d == 5 {
        '5'
    } else if d == 6 {
        '6'
    } else if d == 7 {
        '7'
    } else if d == 8 {
        '8'
    } else if d == 9 {
        '9'
    } else if d == 10 {
        'a'
    } else if d == 11 {
        'b'
    } else if d == 12 {
        'c'
    } else if d == 13 {
        'd'
    } else if d == 14 {
        'e'
    } else {
        'f'
    }
}

/// The lowercase hex digits of a codepoint, most significant first.
pub open spec fn spec_hex_digits(n: u32) -> Seq<char>
    decreases n,
{
    if n < 16 {
        seq![spec_hex_char(n)]
    } else {
        spec_hex_digits(n / 16).push(spec_hex_char(n % 16))
    }
}

/// The hex digits zero-padded on the left to at least four.
pub open spec fn spec_padded_hex(n: u32) -> Seq<char> {
    let d = spec_hex_digits(n);
    if d.len() >= 4 {
        d
    } else {
        Seq::new((4 - d.len()) as nat, |i: int| '0') + d
    }
}

/// The evdev keycode that types a lowercase hex digit character.
pub open spec fn spec_hex_char_to_key(c: char) -> u16 {
    if c == '0' {
        11
    } else if c == '1' {
        2
    } else if c == '2' {
        3
    } else if c == '3' {
        4
    } else if c == '4' {
        5
    } else if c == '5' {
        6
    } else if c == '6' {
        7
    } else if c == '7' {
        8
    } else if c == '8' {
        9
    } else if c == '9' {
        10
    } else if c == 'a' {
        30
    } else if c == 'b' {
        48
    } else if c == 'c' {
        46
    } else if c == 'd' {
        32
    } else if c == 'e' {
        18
    } else if c == 'f' {
        33
    } else {
        11
    }
}

/// Press and release, each with its syn, for every character in turn.
pub open spec fn spec_tap_run(cs: Seq<char>) -> Seq<InputEvent>
    decreases cs.len(),
{
    if cs.len() == 0 {
        Seq::empty()
    } else {
        let k = spec_hex_char_to_key(cs[0]);
        spec_key_batch(k, VAL_PRESS) + spec_key_batch(k, VAL_RELEASE) + spec_tap_run(
            cs.drop_first(),
        )
    }
}

/// The single batch that types the codepoint's hex digits and Enter.
pub open spec fn spec_hex_batch(cp: u32) -> Seq<InputEvent> {
    spec_tap_run(spec_padded_hex(cp)) + spec_key_batch(KEY_ENTER, VAL_PRESS) + spec_key_batch(
        KEY_ENTER,
        VAL_RELEASE,
    )
}

/// The first character of the accent string, or a space when it is
/// empty; only that character is emitted.
pub open spec fn spec_first_char(s: Seq<char>) -> char {
    if s.len() == 0 {
        ' '
    } else {
        s[0]
    }
}

/// The whole emission plan for one character: a pause for the popup to
/// hide; a backspace tap deleting the committed base; the Ctrl+Shift+U
/// chord, one emit per key state change; then the hex digits and Enter
/// as one batch.
pub open spec fn spec_emission_plan(c: char) -> Seq<EmitStepV> {
    seq![
        EmitStepV::SleepMs(DELAY_POPUP_HIDE_MS),
        EmitStepV::Batch(spec_key_batch(KEY_BACKSPACE, VAL_PRESS)),
        EmitStepV::SleepMs(DELAY_BETWEEN_EMITS_MS),
        EmitStepV::Batch(spec_key_batch(KEY_BACKSPACE, VAL_RELEASE)),
        EmitStepV::SleepMs(DELAY_BETWEEN_EMITS_MS),
        EmitStepV::SleepMs(DELAY_AFTER_BACKSPACE_MS),
        EmitStepV::Batch(spec_key_batch(KEY_LEFTCTRL, VAL_PRESS)),
        EmitStepV::SleepMs(DELAY_BETWEEN_EMITS_MS),
        EmitStepV::Batch(spec_key_batch(KEY_LEFTSHIFT, VAL_PRESS)),
        EmitStepV::SleepMs(DELAY_BETWEEN_EMITS_MS),
        EmitStepV::Batch(spec_key_batch(KEY_U, VAL_PRESS)),
        EmitStepV::SleepMs(DELAY_BETWEEN_EMITS_MS),
        EmitStepV::Batch(spec_key_batch(KEY_U, VAL_RELEASE)),
        EmitStepV::SleepMs(DELAY_BETWEEN_EMITS_MS),
        EmitStepV::Batch(spec_key_batch(KEY_LEFTSHIFT, VAL_RELEASE)),
        EmitStepV::SleepMs(DELAY_BETWEEN_EMITS_MS),
        EmitStepV::Batch(spec_key_batch(KEY_LEFTCTRL, VAL_RELEASE)),
        EmitStepV::SleepMs(DELAY_BETWEEN_EMITS_MS),
        EmitStepV::SleepMs(DELAY_AFTER_CHORD_MS),
        EmitStepV::Batch(spec_hex_batch(c as u32)),
    ]
}

/// A synchronization event, to follow each key state change.
pub fn syn() -> (r: InputEvent)
    ensures
        r == spec_syn(),
{
    InputEvent { event_type: EV_SYN, code: 0, value: 0 }
}

fn hex_char(d: u32) -> (r: char)
    requires
        d < 16,
    ensures
        r == spec_hex_char(d),
{
    match d {
        0 => '0',
        1 => '1',
        2 => '2',
        3 => '3',
        4 => '4',
        5 => '5',
        6 => '6',
        7 => '7',
        8 => '8',
        9 => '9',
        10 => 'a',
        11 => 'b',
        12 => 'c',
        13 => 'd',
        14 => 'e',
        _ => 'f',
    }
}

/// The evdev keycode for a lowercase hex digit character; any other
/// character maps to the 0 key.
pub fn hex_char_to_key(c: char) -> (r: u16)
    ensures
        r == spec_hex_char_to_key(c),
{
    match c {
        '0' => 11,
        '1' => 2,
        '2' => 3,
        '3' => 4,
        '4' => 5,
        '5' => 6,
        '6' => 7,
        '7' => 8,
        '8' => 9,
        '9' => 10,
        'a' => 30,
        'b' => 48,
        'c' => 46,
        'd' => 32,
        'e' => 18,
        'f' => 33,
        _ => 11,
    }
}

/// The lowercase hex digits of a codepoint, zero-padded to at least
/// four digits.
fn padded_hex(cp: u32) -> (r: Vec<char>)
    ensures
        r@ == spec_padded_hex(cp),
{
    let mut rev: Vec<char> = Vec::new();
    let mut n = cp;
    rev.push(hex_char(n % 16));
    n = n / 16;
    while n > 0
        invariant
            rev@.len() >= 1,
            if n > 0 {
                spec_hex_digits(cp) == spec_hex_digits(n) + rev@.reverse()
            } else {
                spec_hex_digits(cp) == rev@.reverse()
            },
        decreases n,
    {
        rev.push(hex_char(n % 16));
        let ghost old_n = n;
        n = n / 16;
        proof {
            assert(rev@.reverse() =~= seq![spec_hex_char(old_n % 16)] + rev@.drop_last().reverse());
            if n > 0 {
                assert(spec_hex_digits(n) + rev@.reverse() =~= spec_hex_digits(old_n)
                    + rev@.drop_last().reverse());
            } else {
                assert(rev@.reverse() =~= spec_hex_digits(old_n) + rev@.drop_last().reverse());
            }
        }
    }
    let digits = rev.len();
    let pad: usize = if digits < 4 {
        4 - digits
    } else {
        0
    };
    let mut out: Vec<char> = Vec::new();
    let mut p: usize = 0;
    while p < pad
        invariant
            p <= pad <= 4,
            out@.len() == p,
            forall|q: int| 0 <= q < p ==> out@[q] == '0',
        decreases pad - p,
    {
        out.push('0');
        p = p + 1;
    }
    let mut i: usize = 0;
    while i < digits
        invariant
            digits == rev@.len(),
            i <= digits,
            out@.len() == pad + i,
            forall|q: int| 0 <= q < pad ==> out@[q] == '0',
            forall|q: int| pad <= q < pad + i ==> out@[q] == rev@[digits - 1 - (q - pad)],
        decreases digits - i,
    {
        out.push(rev[digits - 1 - i]);
        i = i + 1;
    }
    proof {
        assert(spec_hex_digits(cp).len() == rev@.len());
        assert(out@ =~= spec_padded_hex(cp));
    }
    out
}

/// The emission plan for an accent string: the steps, in order, that
/// the caller must perform on the virtual device. Only the first
/// character of the string is emitted; an empty string emits a space.
pub fn emission_plan(accent: &str) -> (r: Vec<EmitStep>)
    ensures
        r.deep_view() == spec_emission_plan(spec_first_char(accent@)),
{
    let c = if accent.unicode_len() > 0 {
        accent.get_char(0)
    } else {
        ' '
    };
    let cp = c as u32;
    let mut steps: Vec<EmitStep> = Vec::new();
    steps.push(EmitStep::SleepMs(DELAY_POPUP_HIDE_MS));
    steps.push(EmitStep::Batch(key_batch(KEY_BACKSPACE, VAL_PRESS)));
    steps.push(EmitStep::SleepMs(DELAY_BETWEEN_EMITS_MS));
    steps.push(EmitStep::Batch(key_batch(KEY_BACKSPACE, VAL_RELEASE)));
    steps.push(EmitStep::SleepMs(DELAY_BETWEEN_EMITS_MS));
    steps.push(EmitStep::SleepMs(DELAY_AFTER_BACKSPACE_MS));
    steps.push(EmitStep::Batch(key_batch(KEY_LEFTCTRL, VAL_PRESS)));
    steps.push(EmitStep::SleepMs(DELAY_BETWEEN_EMITS_MS));
    steps.push(EmitStep::Batch(key_batch(KEY_LEFTSHIFT, VAL_PRESS)));
    steps.push(EmitStep::SleepMs(DELAY_BETWEEN_EMITS_MS));
    steps.push(EmitStep::Batch(key_batch(KEY_U, VAL_PRESS)));
    steps.push(EmitStep::SleepMs(DELAY_BETWEEN_EMITS_MS));
    steps.push(EmitStep::Batch(key_batch(KEY_U, VAL_RELEASE)));
    steps.push(EmitStep::SleepMs(DELAY_BETWEEN_EMITS_MS));
    steps.push(EmitStep::Batch(key_batch(KEY_LEFTSHIFT, VAL_RELEASE)));
    steps.push(EmitStep::SleepMs(DELAY_BETWEEN_EMITS_MS));
    steps.push(EmitStep::Batch(key_batch(KEY_LEFTCTRL, VAL_RELEASE)));
    steps.push(EmitStep::SleepMs(DELAY_BETWEEN_EMITS_MS));
    steps.push(EmitStep::SleepMs(DELAY_AFTER_CHORD_MS));
    steps.push(EmitStep::Batch(hex_batch(cp)));
    proof {
        assert(steps.deep_view() =~= spec_emission_plan(spec_first_char(accent@)));
    }
    steps
}

fn key_batch(code: u16, value: i32) -> (r: Vec<InputEvent>)
    ensures
        r@ == spec_key_batch(code, value),
{
    let mut v: Vec<InputEvent> = Vec::new();
    v.push(InputEvent { event_type: EV_KEY, code, value });
    v.push(syn());
    proof {
        assert(v@ =~= spec_key_batch(code, value));
    }
    v
}

fn hex_batch(cp: u32) -> (r: Vec<InputEvent>)
    ensures
        r@ == spec_hex_batch(cp),
{
    let digits = padded_hex(cp);
    let n = digits.len();
    let mut v: Vec<InputEvent> = Vec::new();
    let mut i: usize = 0;
    proof {
        assert(digits@.skip(0) =~= digits@);
        assert(v@ + spec_tap_run(digits@) =~= spec_tap_run(digits@));
    }
    while i < n
        invariant
            n == digits@.len(),
            i <= n,
            v@ + spec_tap_run(digits@.skip(i as int)) == spec_tap_run(digits@),
        decreases n - i,
    {
        let k = hex_char_to_key(digits[i]);
        v.push(InputEvent { event_type: EV_KEY, code: k, value: VAL_PRESS });
        v.push(syn());
        v.push(InputEvent { event_type: EV_KEY, code: k, value: VAL_RELEASE });
        v.push(syn());
        proof {
            assert(digits@.skip(i as int)[0] == digits@[i as int]);
            assert(digits@.skip(i as int).drop_first() =~= digits@.skip(i as int + 1));
            assert(v@ + spec_tap_run(digits@.skip(i as int + 1)) =~= spec_tap_run(digits@));
        }
        i = i + 1;
    }
    proof {
        assert(spec_tap_run(digits@.skip(n as int)) =~= Seq::<InputEvent>::empty());
        assert(v@ =~= spec_tap_run(digits@));
    }
    v.push(InputEvent { event_type: EV_KEY, code: KEY_ENTER, value: VAL_PRESS });
    v.push(syn());
    v.push(InputEvent { event_type: EV_KEY, code: KEY_ENTER, value: VAL_RELEASE });
    v.push(syn());
    proof {
        assert(v@ =~= spec_hex_batch(cp));
    }
    v
}

} // verus!

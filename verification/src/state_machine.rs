//! The per-device key-stream state machine. It consumes raw input
//! events plus a monotonic clock reading in milliseconds, and produces
//! the actions the daemon must dispatch: relay, suppress, popup
//! messages and accent emission.
//!
//! The machine has three states. In `Idle` everything is relayed; a
//! press of an accent-eligible key (with no ctrl/alt/super held)
//! additionally starts a hold. In `Holding` the base key has already
//! reached the application; kernel autorepeats of it are suppressed,
//! and the hold is cancelled by its release or any other press. When
//! the hold crosses the threshold, `check_timer` synthesizes a release
//! of the held key (stopping display-server autorepeat), tells the
//! popup to show, and moves to `Popup`, where a digit press picks an
//! accent and every other path converges on a single `HidePopup`.
//!
//! Modifier key events first update the held flags and then run
//! through the state handlers like any other key: a modifier press
//! cancels a hold or dismisses the popup, and a modifier release in
//! Popup is absorbed like every other non-press event there (see
//! `spec_handle_popup`).

use crate::charmap::{
    fold_base, keycode_to_base, keycode_to_digit, spec_keycode_to_base, spec_keycode_to_digit,
    LocaleMap,
};
use crate::config::Config;
use crate::events::{
    InputEvent, EV_KEY, KEY_ESC, KEY_LEFTALT, KEY_LEFTCTRL, KEY_LEFTMETA, KEY_LEFTSHIFT,
    KEY_RIGHTALT, KEY_RIGHTCTRL, KEY_RIGHTMETA, KEY_RIGHTSHIFT, VAL_PRESS, VAL_RELEASE, VAL_REPEAT,
};
use crate::ipc::{DaemonMsg, DaemonMsgV};
use crate::text::{push_char, upper_of};
use vstd::prelude::*;

verus! {

/// An action the machine asks the caller to perform, in order.
#[derive(Debug)]
pub enum Action {
    /// Forward the event to the virtual device unchanged.
    Relay(InputEvent),
    /// Queue a message to every registered popup client.
    SendPopup(DaemonMsg),
    /// Run the accent emission protocol for this string.
    EmitAccent(String),
    /// Drop the event.
    Suppress,
}

/// The abstract value of an `Action`.
pub enum ActionV {
    Relay(InputEvent),
    SendPopup(DaemonMsgV),
    EmitAccent(Seq<char>),
    Suppress,
}

impl DeepView for Action {
    type V = ActionV;

    open spec fn deep_view(&self) -> ActionV {
        match self {
            Action::Relay(ev) => ActionV::Relay(*ev),
            Action::SendPopup(m) => ActionV::SendPopup(m.deep_view()),
            Action::EmitAccent(s) => ActionV::EmitAccent(s@),
            Action::Suppress => ActionV::Suppress,
        }
    }
}

enum State {
    /// Passthrough.
    Idle,
    /// An eligible press was relayed; a deadline at
    /// `started + threshold_ms` is pending.
    Holding { base: char, accents: Vec<String>, key_code: u16, shift: bool, started: u64 },
    /// The popup is shown; a deadline at `started + popup_timeout_ms`
    /// is pending.
    Popup { base: char, accents: Vec<String>, key_code: u16, started: u64 },
}

/// The abstract state of a machine.
pub enum StateModel {
    Idle,
    Holding { base: char, accents: Seq<Seq<char>>, key_code: u16, shift: bool, started: u64 },
    Popup { base: char, accents: Seq<Seq<char>>, key_code: u16, started: u64 },
}

/// The abstract value of a whole machine.
pub struct MachineModel {
    pub state: StateModel,
    pub locale: Map<char, Seq<Seq<char>>>,
    pub threshold_ms: u64,
    pub popup_timeout_ms: u64,
    pub enabled: bool,
    pub ctrl_held: bool,
    pub alt_held: bool,
    pub super_held: bool,
    pub shift_held: bool,
}

/// The per-device state machine.
pub struct StateMachine {
    state: State,
    locale_map: LocaleMap,
    threshold_ms: u64,
    popup_timeout_ms: u64,
    enabled: bool,
    ctrl_held: bool,
    alt_held: bool,
    super_held: bool,
    shift_held: bool,
}

impl View for StateMachine {
    type V = MachineModel;

    closed spec fn view(&self) -> MachineModel {
        MachineModel {
            state: match self.state {
                State::Idle => StateModel::Idle,
                State::Holding { base, accents, key_code, shift, started } => StateModel::Holding {
                    base,
                    accents: accents.deep_view(),
                    key_code,
                    shift,
                    started,
                },
                State::Popup { base, accents, key_code, started } => StateModel::Popup {
                    base,
                    accents: accents.deep_view(),
                    key_code,
                    started,
                },
            },
            locale: self.locale_map@,
            threshold_ms: self.threshold_ms,
            popup_timeout_ms: self.popup_timeout_ms,
            enabled: self.enabled,
            ctrl_held: self.ctrl_held,
            alt_held: self.alt_held,
            super_held: self.super_held,
            shift_held: self.shift_held,
        }
    }
}

impl DeepView for StateMachine {
    type V = MachineModel;

    open spec fn deep_view(&self) -> MachineModel {
        self.view()
    }
}

/// The model with another state, everything else unchanged.
pub open spec fn with_state(m: MachineModel, s: StateModel) -> MachineModel {
    MachineModel { state: s, ..m }
}

/// How a key event changes the four modifier flags: a press sets the
/// flag, a release clears it, a repeat leaves it alone; left and right
/// variants share one flag.
pub open spec fn spec_update_modifiers(m: MachineModel, ev: InputEvent) -> MachineModel {
    if ev.event_type != EV_KEY {
        m
    } else {
        let pressed = ev.value == VAL_PRESS;
        let released = ev.value == VAL_RELEASE;
        if !pressed && !released {
            m
        } else if ev.code == KEY_LEFTCTRL || ev.code == KEY_RIGHTCTRL {
            MachineModel { ctrl_held: pressed, ..m }
        } else if ev.code == KEY_LEFTALT || ev.code == KEY_RIGHTALT {
            MachineModel { alt_held: pressed, ..m }
        } else if ev.code == KEY_LEFTMETA || ev.code == KEY_RIGHTMETA {
            MachineModel { super_held: pressed, ..m }
        } else if ev.code == KEY_LEFTSHIFT || ev.code == KEY_RIGHTSHIFT {
            MachineModel { shift_held: pressed, ..m }
        } else {
            m
        }
    }
}

/// The accent list the popup will offer: the locale entry for `base`,
/// mapped through the uppercase mapping when shift is held.
pub open spec fn adjusted_accents(m: MachineModel, base: char) -> Seq<Seq<char>> {
    if m.shift_held {
        m.locale[base].map_values(|s: Seq<char>| upper_of(s))
    } else {
        m.locale[base]
    }
}

/// Idle: a press of an eligible key with ctrl/alt/super all released
/// and a non-empty accent list starts a hold; the event itself is
/// always relayed, first, unchanged.
pub open spec fn spec_handle_idle(m: MachineModel, ev: InputEvent, now: u64) -> (
    MachineModel,
    Seq<ActionV>,
) {
    let relay = (m, seq![ActionV::Relay(ev)]);
    if ev.value != VAL_PRESS {
        relay
    } else if m.ctrl_held || m.alt_held || m.super_held {
        relay
    } else {
        match spec_keycode_to_base(ev.code) {
            Some(base) => {
                if m.locale.contains_key(base) && m.locale[base].len() > 0 {
                    (
                        with_state(
                            m,
                            StateModel::Holding {
                                base,
                                accents: adjusted_accents(m, base),
                                key_code: ev.code,
                                shift: m.shift_held,
                                started: now,
                            },
                        ),
                        seq![ActionV::Relay(ev)],
                    )
                } else {
                    relay
                }
            },
            None => relay,
        }
    }
}

/// Holding: repeats of the held key are suppressed; its release, or
/// any other press, cancels the hold; everything is relayed otherwise.
pub open spec fn spec_handle_holding(m: MachineModel, ev: InputEvent) -> (
    MachineModel,
    Seq<ActionV>,
) {
    let held_code = m.state->Holding_key_code;
    if ev.code == held_code && ev.value == VAL_REPEAT {
        (m, seq![ActionV::Suppress])
    } else if ev.code == held_code && ev.value == VAL_RELEASE {
        (with_state(m, StateModel::Idle), seq![ActionV::Relay(ev)])
    } else if ev.value == VAL_PRESS {
        (with_state(m, StateModel::Idle), seq![ActionV::Relay(ev)])
    } else {
        (m, seq![ActionV::Relay(ev)])
    }
}

/// Popup: repeats of the held key are suppressed; its release or ESC
/// dismisses; a digit within range selects an accent, a digit out of
/// range only dismisses; any other press dismisses and is relayed;
/// other events are suppressed. That last arm also swallows releases
/// of modifier keys while the popup is open (the flags are still
/// tracked): the popup absorbs everything that does not decide it.
/// Every path back to Idle carries exactly one `HidePopup`.
pub open spec fn spec_handle_popup(m: MachineModel, ev: InputEvent) -> (
    MachineModel,
    Seq<ActionV>,
) {
    let held_code = m.state->Popup_key_code;
    let accents = m.state->Popup_accents;
    if ev.code == held_code && ev.value == VAL_REPEAT {
        (m, seq![ActionV::Suppress])
    } else if ev.code == held_code && ev.value == VAL_RELEASE {
        (
            with_state(m, StateModel::Idle),
            seq![ActionV::SendPopup(DaemonMsgV::HidePopup), ActionV::Suppress],
        )
    } else if ev.code == KEY_ESC && ev.value == VAL_PRESS {
        (
            with_state(m, StateModel::Idle),
            seq![ActionV::SendPopup(DaemonMsgV::HidePopup), ActionV::Suppress],
        )
    } else if ev.value == VAL_PRESS && spec_keycode_to_digit(ev.code) is Some {
        if spec_keycode_to_digit(ev.code)->0 - 1 < accents.len() {
            (
                with_state(m, StateModel::Idle),
                seq![
                    ActionV::SendPopup(DaemonMsgV::HidePopup),
                    ActionV::EmitAccent(accents[spec_keycode_to_digit(ev.code)->0 - 1]),
                ],
            )
        } else {
            // a digit past the end of the list dismisses without
            // typing the stray digit into the application
            (with_state(m, StateModel::Idle), seq![ActionV::SendPopup(DaemonMsgV::HidePopup)])
        }
    } else if ev.value == VAL_PRESS {
        (
            with_state(m, StateModel::Idle),
            seq![ActionV::SendPopup(DaemonMsgV::HidePopup), ActionV::Relay(ev)],
        )
    } else {
        (m, seq![ActionV::Suppress])
    }
}

/// One step of the machine on an input event: modifiers are tracked
/// first, then non-key events and the disabled machine relay
/// everything, and otherwise the current state decides.
pub open spec fn spec_process_event(m: MachineModel, ev: InputEvent, now: u64) -> (
    MachineModel,
    Seq<ActionV>,
) {
    let m1 = spec_update_modifiers(m, ev);
    if ev.event_type != EV_KEY {
        (m1, seq![ActionV::Relay(ev)])
    } else if !m1.enabled {
        (m1, seq![ActionV::Relay(ev)])
    } else {
        match m1.state {
            StateModel::Idle => spec_handle_idle(m1, ev, now),
            StateModel::Holding { .. } => spec_handle_holding(m1, ev),
            StateModel::Popup { .. } => spec_handle_popup(m1, ev),
        }
    }
}

/// The digit labels 1 through `n` for the popup.
pub open spec fn spec_labels(n: nat) -> Seq<u8> {
    Seq::new(n, |i: int| (i + 1) as u8)
}

/// The deadline step: past the hold threshold, synthesize a release of
/// the held key, show the popup and move to `Popup`; past the popup
/// timeout, hide the popup and return to `Idle`.
pub open spec fn spec_check_timer(m: MachineModel, now: u64) -> (MachineModel, Seq<ActionV>) {
    match m.state {
        StateModel::Holding { base, accents, key_code, shift, started } => {
            if now >= started && now - started >= m.threshold_ms {
                (
                    with_state(m, StateModel::Popup { base, accents, key_code, started: now }),
                    seq![
                        ActionV::Relay(
                            InputEvent { event_type: EV_KEY, code: key_code, value: VAL_RELEASE },
                        ),
                        ActionV::SendPopup(
                            DaemonMsgV::ShowPopup {
                                base: seq![base],
                                accents,
                                labels: spec_labels(accents.len()),
                            },
                        ),
                    ],
                )
            } else {
                (m, Seq::empty())
            }
        },
        StateModel::Popup { started, .. } => {
            if now >= started && now - started >= m.popup_timeout_ms {
                (
                    with_state(m, StateModel::Idle),
                    seq![ActionV::SendPopup(DaemonMsgV::HidePopup)],
                )
            } else {
                (m, Seq::empty())
            }
        },
        StateModel::Idle => (m, Seq::empty()),
    }
}

/// A selection arriving over IPC: like the in-popup digit press. An
/// index out of range dismisses the popup, exactly as an out-of-range
/// digit does.
pub open spec fn spec_ipc_select(m: MachineModel, index: u8) -> (MachineModel, Seq<ActionV>) {
    match m.state {
        StateModel::Popup { accents, .. } => {
            if 1 <= index && index - 1 < accents.len() {
                (
                    with_state(m, StateModel::Idle),
                    seq![
                        ActionV::SendPopup(DaemonMsgV::HidePopup),
                        ActionV::EmitAccent(accents[index - 1]),
                    ],
                )
            } else {
                (with_state(m, StateModel::Idle), seq![ActionV::SendPopup(DaemonMsgV::HidePopup)])
            }
        },
        _ => (m, Seq::empty()),
    }
}

/// A dismissal arriving over IPC: like the in-popup ESC press.
pub open spec fn spec_ipc_dismiss(m: MachineModel) -> (MachineModel, Seq<ActionV>) {
    match m.state {
        StateModel::Popup { .. } => (
            with_state(m, StateModel::Idle),
            seq![ActionV::SendPopup(DaemonMsgV::HidePopup)],
        ),
        _ => (m, Seq::empty()),
    }
}

/// The next instant (in ms) at which `check_timer` has work, if any.
pub open spec fn spec_next_deadline(m: MachineModel) -> Option<u64> {
    match m.state {
        StateModel::Idle => None,
        StateModel::Holding { started, .. } => Some(sat_add(started, m.threshold_ms)),
        StateModel::Popup { started, .. } => Some(sat_add(started, m.popup_timeout_ms)),
    }
}

/// Saturating addition on u64.
pub open spec fn sat_add(a: u64, b: u64) -> u64 {
    if a + b > u64::MAX {
        u64::MAX
    } else {
        (a + b) as u64
    }
}

fn act0() -> (r: Vec<Action>)
    ensures
        r.deep_view() == Seq::<ActionV>::empty(),
{
    let v: Vec<Action> = Vec::new();
    proof {
        assert(v.deep_view() =~= Seq::<ActionV>::empty());
    }
    v
}

fn act1(a: Action) -> (r: Vec<Action>)
    ensures
        r.deep_view() == seq![a.deep_view()],
{
    let mut v: Vec<Action> = Vec::new();
    v.push(a);
    proof {
        assert(v.deep_view() =~= seq![v@[0].deep_view()]);
    }
    v
}

fn act2(a: Action, b: Action) -> (r: Vec<Action>)
    ensures
        r.deep_view() == seq![a.deep_view(), b.deep_view()],
{
    let mut v: Vec<Action> = Vec::new();
    v.push(a);
    v.push(b);
    proof {
        assert(v.deep_view() =~= seq![v@[0].deep_view(), v@[1].deep_view()]);
    }
    v
}

/// A copy of a vector of strings, element by element.
fn copy_strings(v: &Vec<String>) -> (r: Vec<String>)
    ensures
        r@ == v@,
{
    let n = v.len();
    let mut r: Vec<String> = Vec::new();
    let mut i: usize = 0;
    while i < n
        invariant
            n == v@.len(),
            i <= n,
            r@.len() == i,
            forall|p: int| 0 <= p < i ==> #[trigger] r@[p] == v@[p],
        decreases n - i,
    {
        r.push(v[i].clone());
        i = i + 1;
    }
    proof {
        assert(r@ =~= v@);
    }
    r
}

impl StateMachine {
    #[verifier::type_invariant]
    closed spec fn wf(&self) -> bool {
        match self.state {
            State::Idle => true,
            State::Holding { accents, .. } => 1 <= accents@.len() <= 9,
            State::Popup { accents, .. } => 1 <= accents@.len() <= 9,
        }
    }

    /// A fresh machine: Idle, with the thresholds and switch from the
    /// configuration and the given locale map.
    pub fn new(config: &Config, locale_map: LocaleMap) -> (r: StateMachine)
        ensures
            r@ == (MachineModel {
                state: StateModel::Idle,
                locale: locale_map@,
                threshold_ms: config.general.threshold_ms,
                popup_timeout_ms: config.popup.timeout_ms,
                enabled: config.general.enabled,
                ctrl_held: false,
                alt_held: false,
                super_held: false,
                shift_held: false,
            }),
    {
        StateMachine {
            state: State::Idle,
            locale_map,
            threshold_ms: config.general.threshold_ms,
            popup_timeout_ms: config.popup.timeout_ms,
            enabled: config.general.enabled,
            ctrl_held: false,
            alt_held: false,
            super_held: false,
            shift_held: false,
        }
    }

    /// Switch accent detection on or off; switching off also forces
    /// Idle, so no popup can be left stuck.
    pub fn set_enabled(&mut self, enabled: bool)
        ensures
            final(self)@ == (MachineModel {
                enabled,
                state: if enabled {
                    old(self)@.state
                } else {
                    StateModel::Idle
                },
                ..old(self)@
            }),
    {
        proof {
            use_type_invariant(&*self);
        }
        self.enabled = enabled;
        if !enabled {
            self.state = State::Idle;
        }
    }

    /// Whether accent detection is on.
    pub fn is_enabled(&self) -> (r: bool)
        ensures
            r == self@.enabled,
    {
        self.enabled
    }

    /// Whether the machine is in the Idle state.
    pub fn is_idle(&self) -> (r: bool)
        ensures
            r == (self@.state is Idle),
    {
        match &self.state {
            State::Idle => true,
            _ => false,
        }
    }

    /// Replace the locale map and force Idle.
    pub fn set_locale_map(&mut self, map: LocaleMap)
        ensures
            final(self)@ == (MachineModel { locale: map@, state: StateModel::Idle, ..old(self)@ }),
    {
        proof {
            use_type_invariant(&*self);
        }
        self.locale_map = map;
        self.state = State::Idle;
    }

    /// The next instant at which `check_timer` has work: the hold
    /// threshold in Holding, the popup timeout in Popup, nothing in
    /// Idle.
    pub fn next_deadline(&self) -> (r: Option<u64>)
        ensures
            r == spec_next_deadline(self@),
    {
        match &self.state {
            State::Idle => None,
            State::Holding { started, .. } => Some(started.saturating_add(self.threshold_ms)),
            State::Popup { started, .. } => Some(started.saturating_add(self.popup_timeout_ms)),
        }
    }

    /// Process one input event, with the current monotonic clock
    /// reading in milliseconds.
    pub fn process_event(&mut self, ev: InputEvent, now_ms: u64) -> (r: Vec<Action>)
        ensures
            final(self)@ == spec_process_event(old(self)@, ev, now_ms).0,
            r.deep_view() == spec_process_event(old(self)@, ev, now_ms).1,
    {
        if ev.event_type == EV_KEY {
            self.update_modifiers(ev);
        }
        if ev.event_type != EV_KEY {
            return act1(Action::Relay(ev));
        }
        if !self.enabled {
            return act1(Action::Relay(ev));
        }
        match &self.state {
            State::Idle => self.handle_idle(ev, now_ms),
            State::Holding { .. } => self.handle_holding(ev),
            State::Popup { .. } => self.handle_popup(ev),
        }
    }

    fn update_modifiers(&mut self, ev: InputEvent)
        requires
            ev.event_type == EV_KEY,
        ensures
            final(self)@ == spec_update_modifiers(old(self)@, ev),
    {
        proof {
            use_type_invariant(&*self);
        }
        let pressed = ev.value == VAL_PRESS;
        let released = ev.value == VAL_RELEASE;
        if !pressed && !released {
            return ;
        }
        match ev.code {
            KEY_LEFTCTRL | KEY_RIGHTCTRL => {
                self.ctrl_held = pressed;
            },
            KEY_LEFTALT | KEY_RIGHTALT => {
                self.alt_held = pressed;
            },
            KEY_LEFTMETA | KEY_RIGHTMETA => {
                self.super_held = pressed;
            },
            KEY_LEFTSHIFT | KEY_RIGHTSHIFT => {
                self.shift_held = pressed;
            },
            _ => {},
        }
    }

    fn handle_idle(&mut self, ev: InputEvent, now_ms: u64) -> (r: Vec<Action>)
        requires
            old(self)@.state is Idle,
            old(self)@.enabled,
            ev.event_type == EV_KEY,
        ensures
            final(self)@ == spec_handle_idle(old(self)@, ev, now_ms).0,
            r.deep_view() == spec_handle_idle(old(self)@, ev, now_ms).1,
    {
        proof {
            use_type_invariant(&*self);
        }
        if ev.value != VAL_PRESS {
            return act1(Action::Relay(ev));
        }
        if self.ctrl_held || self.alt_held || self.super_held {
            return act1(Action::Relay(ev));
        }
        let shift = self.shift_held;
        match keycode_to_base(ev.code) {
            Some(base) => {
                proof {
                    assert(fold_base(base) == base);
                }
                match crate::charmap::resolve_accents(&self.locale_map, base, shift) {
                    Some(accents) => {
                        if accents.len() > 0 {
                            proof {
                                assert(accents.deep_view().len() == accents@.len());
                                assert(accents.deep_view() == adjusted_accents(self@, base));
                            }
                            self.state = State::Holding {
                                base,
                                accents,
                                key_code: ev.code,
                                shift,
                                started: now_ms,
                            };
                            act1(Action::Relay(ev))
                        } else {
                            act1(Action::Relay(ev))
                        }
                    },
                    None => act1(Action::Relay(ev)),
                }
            },
            None => act1(Action::Relay(ev)),
        }
    }

    fn handle_holding(&mut self, ev: InputEvent) -> (r: Vec<Action>)
        requires
            old(self)@.state is Holding,
            old(self)@.enabled,
            ev.event_type == EV_KEY,
        ensures
            final(self)@ == spec_handle_holding(old(self)@, ev).0,
            r.deep_view() == spec_handle_holding(old(self)@, ev).1,
    {
        proof {
            use_type_invariant(&*self);
        }
        let held_code = match &self.state {
            State::Holding { key_code, .. } => *key_code,
            // never taken: the caller dispatches on the Holding state
            _ => 0,
        };
        if ev.code == held_code && ev.value == VAL_REPEAT {
            return act1(Action::Suppress);
        }
        if ev.code == held_code && ev.value == VAL_RELEASE {
            self.state = State::Idle;
            return act1(Action::Relay(ev));
        }
        if ev.value == VAL_PRESS {
            self.state = State::Idle;
            return act1(Action::Relay(ev));
        }
        act1(Action::Relay(ev))
    }

    fn handle_popup(&mut self, ev: InputEvent) -> (r: Vec<Action>)
        requires
            old(self)@.state is Popup,
            old(self)@.enabled,
            ev.event_type == EV_KEY,
        ensures
            final(self)@ == spec_handle_popup(old(self)@, ev).0,
            r.deep_view() == spec_handle_popup(old(self)@, ev).1,
    {
        proof {
            use_type_invariant(&*self);
        }
        let held_code = match &self.state {
            State::Popup { key_code, .. } => *key_code,
            // never taken: the caller dispatches on the Popup state
            _ => 0,
        };
        if ev.code == held_code && ev.value == VAL_REPEAT {
            return act1(Action::Suppress);
        }
        if ev.code == held_code && ev.value == VAL_RELEASE {
            self.state = State::Idle;
            return act2(Action::SendPopup(DaemonMsg::HidePopup), Action::Suppress);
        }
        if ev.code == KEY_ESC && ev.value == VAL_PRESS {
            self.state = State::Idle;
            return act2(Action::SendPopup(DaemonMsg::HidePopup), Action::Suppress);
        }
        if ev.value == VAL_PRESS {
            match keycode_to_digit(ev.code) {
                Some(digit) => {
                    let accent = match &self.state {
                        State::Popup { accents, .. } => {
                            if digit as usize <= accents.len() {
                                Some(accents[(digit - 1) as usize].clone())
                            } else {
                                None
                            }
                        },
                        _ => None,
                    };
                    self.state = State::Idle;
                    return match accent {
                        Some(s) => act2(
                            Action::SendPopup(DaemonMsg::HidePopup),
                            Action::EmitAccent(s),
                        ),
                        // a digit past the end of the list dismisses
                        // without typing the stray digit
                        None => act1(Action::SendPopup(DaemonMsg::HidePopup)),
                    };
                },
                None => {},
            }
            self.state = State::Idle;
            return act2(Action::SendPopup(DaemonMsg::HidePopup), Action::Relay(ev));
        }
        act1(Action::Suppress)
    }

    /// Fire any due deadline: the Holding threshold or the Popup
    /// timeout. The synthesized release at the threshold crossing
    /// precedes the `ShowPopup` message.
    pub fn check_timer(&mut self, now_ms: u64) -> (r: Vec<Action>)
        ensures
            final(self)@ == spec_check_timer(old(self)@, now_ms).0,
            r.deep_view() == spec_check_timer(old(self)@, now_ms).1,
    {
        proof {
            use_type_invariant(&*self);
        }
        match &self.state {
            State::Holding { base, accents, key_code, started, .. } => {
                let base_c = *base;
                let code = *key_code;
                let t0 = *started;
                if now_ms >= t0 && now_ms - t0 >= self.threshold_ms {
                    let acc_state = copy_strings(accents);
                    let acc_msg = copy_strings(accents);
                    let n = accents.len();
                    let ghost acc_view = accents.deep_view();
                    let mut labels: Vec<u8> = Vec::new();
                    let mut i: usize = 0;
                    while i < n
                        invariant
                            n <= 9,
                            i <= n,
                            labels@.len() == i,
                            forall|p: int| 0 <= p < i ==> #[trigger] labels@[p] == p + 1,
                        decreases n - i,
                    {
                        labels.push((i + 1) as u8);
                        i = i + 1;
                    }
                    let mut base_s = String::new();
                    push_char(&mut base_s, base_c);
                    proof {
                        assert(base_s@ =~= seq![base_c]);
                        assert(labels@ =~= spec_labels(acc_view.len()));
                        assert(acc_state.deep_view() =~= acc_view);
                        assert(acc_msg.deep_view() =~= acc_view);
                    }
                    let release = InputEvent { event_type: EV_KEY, code, value: VAL_RELEASE };
                    self.state = State::Popup {
                        base: base_c,
                        accents: acc_state,
                        key_code: code,
                        started: now_ms,
                    };
                    act2(
                        Action::Relay(release),
                        Action::SendPopup(
                            DaemonMsg::ShowPopup { base: base_s, accents: acc_msg, labels },
                        ),
                    )
                } else {
                    act0()
                }
            },
            State::Popup { started, .. } => {
                let t0 = *started;
                if now_ms >= t0 && now_ms - t0 >= self.popup_timeout_ms {
                    self.state = State::Idle;
                    act1(Action::SendPopup(DaemonMsg::HidePopup))
                } else {
                    act0()
                }
            },
            State::Idle => act0(),
        }
    }

    /// Select an accent by its 1-indexed number, as the popup UI does
    /// over IPC. An out-of-range index dismisses the popup, exactly as
    /// an out-of-range digit press does; outside the Popup state the
    /// call does nothing.
    pub fn ipc_select(&mut self, index: u8) -> (r: Vec<Action>)
        ensures
            final(self)@ == spec_ipc_select(old(self)@, index).0,
            r.deep_view() == spec_ipc_select(old(self)@, index).1,
    {
        proof {
            use_type_invariant(&*self);
        }
        let selection = match &self.state {
            State::Popup { accents, .. } => {
                if 1 <= index && (index as usize) <= accents.len() {
                    Some(Some(accents[(index - 1) as usize].clone()))
                } else {
                    Some(None)
                }
            },
            _ => None,
        };
        match selection {
            Some(Some(s)) => {
                self.state = State::Idle;
                act2(Action::SendPopup(DaemonMsg::HidePopup), Action::EmitAccent(s))
            },
            Some(None) => {
                self.state = State::Idle;
                act1(Action::SendPopup(DaemonMsg::HidePopup))
            },
            None => act0(),
        }
    }

    /// Dismiss the popup, as the popup UI does over IPC. Does nothing
    /// outside the Popup state.
    pub fn ipc_dismiss(&mut self) -> (r: Vec<Action>)
        ensures
            final(self)@ == spec_ipc_dismiss(old(self)@).0,
            r.deep_view() == spec_ipc_dismiss(old(self)@).1,
    {
        proof {
            use_type_invariant(&*self);
        }
        let in_popup = match &self.state {
            State::Popup { .. } => true,
            _ => false,
        };
        if in_popup {
            self.state = State::Idle;
            act1(Action::SendPopup(DaemonMsg::HidePopup))
        } else {
            act0()
        }
    }
}

/// What a hold stores: when a press in Idle starts a hold, the new
/// state holds that key's code, the shift flag, the press time, and
/// exactly the case-adjusted locale entry for the key's base letter;
/// the threshold crossing then carries those same strings into Popup
/// unchanged.
pub proof fn lemma_hold_entry_accents(m: MachineModel, ev: InputEvent, now: u64, fire_at: u64)
    requires
        m.state is Idle,
    ensures
        ({
            let m1 = spec_update_modifiers(m, ev);
            let held = spec_process_event(m, ev, now).0;
            held.state matches StateModel::Holding { base, accents, key_code, shift, started }
                ==> spec_keycode_to_base(ev.code) == Some(base) && accents == adjusted_accents(
                m1,
                base,
            ) && key_code == ev.code && shift == m1.shift_held && started == now
        }),
        ({
            let held = spec_process_event(m, ev, now).0;
            let fired = spec_check_timer(held, fire_at).0;
            held.state is Holding && fired.state is Popup ==> fired.state->Popup_accents
                == held.state->Holding_accents
        }),
{
}

/// The number of Relay actions in a list.
pub open spec fn count_relays(acts: Seq<ActionV>) -> nat
    decreases acts.len(),
{
    if acts.len() == 0 {
        0
    } else {
        (if acts[0] is Relay {
            1nat
        } else {
            0nat
        }) + count_relays(acts.drop_first())
    }
}

/// The number of HidePopup messages in a list of actions.
pub open spec fn count_hides(acts: Seq<ActionV>) -> nat
    decreases acts.len(),
{
    if acts.len() == 0 {
        0
    } else {
        (if acts[0] == ActionV::SendPopup(DaemonMsgV::HidePopup) {
            1nat
        } else {
            0nat
        }) + count_hides(acts.drop_first())
    }
}

/// The number of EmitAccent actions in a list.
pub open spec fn count_emits(acts: Seq<ActionV>) -> nat
    decreases acts.len(),
{
    if acts.len() == 0 {
        0
    } else {
        (if acts[0] is EmitAccent {
            1nat
        } else {
            0nat
        }) + count_emits(acts.drop_first())
    }
}

/// Running the machine over a whole trace of timestamped events.
pub open spec fn spec_run(m: MachineModel, evs: Seq<(InputEvent, u64)>) -> (
    MachineModel,
    Seq<ActionV>,
)
    decreases evs.len(),
{
    if evs.len() == 0 {
        (m, Seq::empty())
    } else {
        let first = spec_process_event(m, evs[0].0, evs[0].1);
        let rest = spec_run(first.0, evs.drop_first());
        (rest.0, first.1 + rest.1)
    }
}

proof fn lemma_count_relays_concat(a: Seq<ActionV>, b: Seq<ActionV>)
    ensures
        count_relays(a + b) == count_relays(a) + count_relays(b),
    decreases a.len(),
{
    if a.len() == 0 {
        assert(a + b =~= b);
    } else {
        assert((a + b).drop_first() =~= a.drop_first() + b);
        assert((a + b)[0] == a[0]);
        lemma_count_relays_concat(a.drop_first(), b);
    }
}

/// Zero-latency base: in Idle, every event comes back as exactly one
/// relay of itself -- in particular, the press of an eligible key that
/// starts a hold reaches the application unchanged, first.
pub proof fn lemma_zero_latency_base(m: MachineModel, ev: InputEvent, now: u64)
    requires
        m.state is Idle,
    ensures
        spec_process_event(m, ev, now).1 =~= seq![ActionV::Relay(ev)],
{
}

/// Each processed event yields at most one Relay action, and any Relay
/// it yields carries that very event.
pub proof fn lemma_step_relays_input(m: MachineModel, ev: InputEvent, now: u64)
    ensures
        count_relays(spec_process_event(m, ev, now).1) <= 1,
        forall|i: int|
            0 <= i < spec_process_event(m, ev, now).1.len() && spec_process_event(
                m,
                ev,
                now,
            ).1[i] is Relay ==> spec_process_event(m, ev, now).1[i] == ActionV::Relay(ev),
    decreases 0int,
{
    reveal_with_fuel(count_relays, 4);
}

/// A deadline check yields at most one Relay, and only the synthesized
/// release of the held key at the threshold crossing: a user event is
/// never relayed from a timer.
pub proof fn lemma_timer_relays(m: MachineModel, now: u64)
    ensures
        count_relays(spec_check_timer(m, now).1) <= 1,
        forall|i: int|
            0 <= i < spec_check_timer(m, now).1.len() && spec_check_timer(m, now).1[i] is Relay
                ==> (m.state matches StateModel::Holding { key_code, .. } && spec_check_timer(
                m,
                now,
            ).1[i] == ActionV::Relay(
                InputEvent { event_type: EV_KEY, code: key_code, value: VAL_RELEASE },
            )),
{
    reveal_with_fuel(count_relays, 4);
}

/// No double-relay: over any finite trace of events, the machine emits
/// at most one Relay per input event. Together with
/// `lemma_step_relays_input` (each Relay carries its own input event)
/// and `lemma_timer_relays` (a timer only relays the synthesized
/// release), each input event is relayed at most once.
pub proof fn lemma_no_double_relay(m: MachineModel, evs: Seq<(InputEvent, u64)>)
    ensures
        count_relays(spec_run(m, evs).1) <= evs.len(),
    decreases evs.len(),
{
    if evs.len() == 0 {
        reveal_with_fuel(count_relays, 2);
    } else {
        let first = spec_process_event(m, evs[0].0, evs[0].1);
        lemma_step_relays_input(m, evs[0].0, evs[0].1);
        lemma_count_relays_concat(first.1, spec_run(first.0, evs.drop_first()).1);
        lemma_no_double_relay(first.0, evs.drop_first());
    }
}

/// In Popup, the release of the held key is suppressed, never relayed:
/// its press was already answered by the synthesized release.
pub proof fn lemma_popup_release_not_relayed(m: MachineModel, ev: InputEvent, now: u64)
    requires
        m.enabled,
        ev.event_type == EV_KEY,
        ev.value == VAL_RELEASE,
        m.state matches StateModel::Popup { key_code, .. } && ev.code == key_code,
    ensures
        count_relays(spec_process_event(m, ev, now).1) == 0,
{
    reveal_with_fuel(count_relays, 4);
}

/// Autorepeat suppression: a repeat of the held key, in Holding or in
/// Popup, produces exactly one Suppress and changes nothing.
pub proof fn lemma_autorepeat_suppressed(m: MachineModel, ev: InputEvent, now: u64)
    requires
        m.enabled,
        ev.event_type == EV_KEY,
        ev.value == VAL_REPEAT,
        (m.state matches StateModel::Holding { key_code, .. } && ev.code == key_code) || (
        m.state matches StateModel::Popup { key_code, .. } && ev.code == key_code),
    ensures
        spec_process_event(m, ev, now).1 =~= seq![ActionV::Suppress],
        spec_process_event(m, ev, now).0 == m,
{
}

/// Popup convergence: from Popup, an event either keeps the popup (and
/// sends nothing) or reaches Idle with exactly one HidePopup. Only a
/// digit press within range emits an accent, and then the HidePopup
/// stands immediately before the EmitAccent.
pub proof fn lemma_popup_convergence(m: MachineModel, ev: InputEvent, now: u64)
    requires
        m.enabled,
        m.state is Popup,
        ev.event_type == EV_KEY,
    ensures
        ({
            let r = spec_process_event(m, ev, now);
            &&& r.0.state is Idle || r.0.state == m.state
            &&& (r.0.state is Idle <==> count_hides(r.1) == 1)
            &&& (r.0.state == m.state ==> count_hides(r.1) == 0 && count_emits(r.1) == 0)
            &&& count_emits(r.1) <= 1
            &&& (count_emits(r.1) == 1 ==> ev.value == VAL_PRESS && (spec_keycode_to_digit(
                ev.code,
            ) matches Some(d) && d - 1 < m.state->Popup_accents.len() && r.1 =~= seq![
                ActionV::SendPopup(DaemonMsgV::HidePopup),
                ActionV::EmitAccent(m.state->Popup_accents[d - 1]),
            ]))
        }),
{
    reveal_with_fuel(count_hides, 4);
    reveal_with_fuel(count_emits, 4);
}

/// Popup convergence over the timer: the popup timeout reaches Idle
/// with exactly one HidePopup and no accent.
pub proof fn lemma_popup_timeout_converges(m: MachineModel, now: u64)
    requires
        m.state is Popup,
    ensures
        ({
            let r = spec_check_timer(m, now);
            &&& r.0.state is Idle || r.0 == m
            &&& (r.0.state is Idle <==> count_hides(r.1) == 1)
            &&& count_emits(r.1) == 0
        }),
{
    reveal_with_fuel(count_hides, 4);
    reveal_with_fuel(count_emits, 4);
}

/// Popup convergence over IPC: a selection or dismissal in Popup
/// always reaches Idle with exactly one HidePopup; only an in-range
/// selection emits an accent, with the HidePopup first, and an
/// out-of-range selection dismisses with the HidePopup alone.
pub proof fn lemma_ipc_converges(m: MachineModel, index: u8)
    requires
        m.state is Popup,
    ensures
        ({
            let r = spec_ipc_select(m, index);
            &&& r.0.state is Idle
            &&& count_hides(r.1) == 1
            &&& (count_emits(r.1) == 1 <==> 1 <= index && index - 1 < m.state->Popup_accents.len())
            &&& (count_emits(r.1) == 1 ==> r.1 =~= seq![
                ActionV::SendPopup(DaemonMsgV::HidePopup),
                ActionV::EmitAccent(m.state->Popup_accents[index - 1]),
            ])
            &&& (count_emits(r.1) == 0 ==> r.1 =~= seq![ActionV::SendPopup(DaemonMsgV::HidePopup)])
        }),
        ({
            let r = spec_ipc_dismiss(m);
            r.0.state is Idle && count_hides(r.1) == 1 && count_emits(r.1) == 0
        }),
{
    reveal_with_fuel(count_hides, 4);
    reveal_with_fuel(count_emits, 4);
}

/// Deadline monotonicity, first half: a deadline exists exactly
/// outside Idle.
pub proof fn lemma_deadline_iff_not_idle(m: MachineModel)
    ensures
        spec_next_deadline(m) is Some <==> !(m.state is Idle),
{
}

/// Deadline monotonicity, second half: the deadline is a function of
/// the state alone, so it cannot move while the state stands; an event
/// that leaves the state alone leaves the deadline alone, and so does
/// a deadline check that fires nothing.
pub proof fn lemma_deadline_stable(m: MachineModel, ev: InputEvent, now: u64)
    ensures
        spec_process_event(m, ev, now).0.state == m.state ==> spec_next_deadline(
            spec_process_event(m, ev, now).0,
        ) == spec_next_deadline(m),
        spec_check_timer(m, now).1.len() == 0 ==> spec_next_deadline(spec_check_timer(m, now).0)
            == spec_next_deadline(m),
{
}

/// Case mapping: a hold started with shift held stores the
/// uppercase-mapped variants, and the ShowPopup sent at the threshold
/// crossing carries exactly those strings.
pub proof fn lemma_case_mapping(m: MachineModel, ev: InputEvent, press_at: u64, fire_at: u64)
    requires
        m.state is Idle,
        m.enabled,
        !m.ctrl_held,
        !m.alt_held,
        !m.super_held,
        m.shift_held,
        ev.event_type == EV_KEY,
        ev.value == VAL_PRESS,
        spec_keycode_to_base(ev.code) matches Some(base) && m.locale.contains_key(base)
            && m.locale[base].len() > 0,
        fire_at >= press_at,
        fire_at - press_at >= m.threshold_ms,
    ensures
        ({
            let base = spec_keycode_to_base(ev.code)->0;
            let held = spec_process_event(m, ev, press_at).0;
            let fired = spec_check_timer(held, fire_at);
            &&& fired.1.len() == 2
            &&& fired.1[1] == ActionV::SendPopup(
                DaemonMsgV::ShowPopup {
                    base: seq![base],
                    accents: m.locale[base].map_values(|s: Seq<char>| upper_of(s)),
                    labels: spec_labels(m.locale[base].len()),
                },
            )
        }),
{
    let base = spec_keycode_to_base(ev.code)->0;
    assert(m.locale[base].map_values(|s: Seq<char>| upper_of(s)).len() == m.locale[base].len());
}

} // verus!

//! Daemon-side routing rules: how client commands and timer wakeups
//! are applied across the whole set of per-device state machines, and
//! the panic-escape ring that lets a user kill the daemon from the
//! keyboard. The event loop around these rules (device reads, socket
//! accept, sleeping until the earliest deadline) lives outside the
//! library.

use crate::events::{KEY_BACKSPACE, KEY_ENTER, KEY_ESC};
use crate::ipc::{DaemonMsg, DaemonMsgV};
use crate::state_machine::{
    spec_check_timer, spec_ipc_dismiss, spec_ipc_select, spec_next_deadline, Action, MachineModel,
    StateMachine, StateModel,
};
use crate::text::push_str;
use vstd::prelude::*;

verus! {

/// The smaller of two optional deadlines, `None` counting as "never".
pub open spec fn min_deadline(a: Option<u64>, b: Option<u64>) -> Option<u64> {
    match (a, b) {
        (Option::None, y) => y,
        (x, Option::None) => x,
        (Option::Some(x), Option::Some(y)) => Option::Some(
            if x <= y {
                x
            } else {
                y
            },
        ),
    }
}

/// The earliest deadline over a list of machines.
pub open spec fn spec_earliest_deadline(ms: Seq<MachineModel>) -> Option<u64>
    decreases ms.len(),
{
    if ms.len() == 0 {
        None
    } else {
        min_deadline(spec_earliest_deadline(ms.drop_last()), spec_next_deadline(ms.last()))
    }
}

/// The earliest pending deadline across all machines, if any: what the
/// event loop sleeps until.
pub fn earliest_deadline(machines: &Vec<StateMachine>) -> (r: Option<u64>)
    ensures
        r == spec_earliest_deadline(machines.deep_view()),
{
    let n = machines.len();
    let mut acc: Option<u64> = None;
    let mut i: usize = 0;
    proof {
        assert(machines.deep_view().take(0) =~= Seq::<MachineModel>::empty());
    }
    while i < n
        invariant
            n == machines@.len(),
            i <= n,
            acc == spec_earliest_deadline(machines.deep_view().take(i as int)),
        decreases n - i,
    {
        let d = machines[i].next_deadline();
        acc = match (acc, d) {
            (None, y) => y,
            (x, None) => x,
            (Some(x), Some(y)) => Some(
                if x <= y {
                    x
                } else {
                    y
                },
            ),
        };
        i = i + 1;
        proof {
            assert(machines.deep_view().take(i as int).drop_last() =~= machines.deep_view().take(
                i as int - 1,
            ));
        }
    }
    proof {
        assert(machines.deep_view().take(n as int) =~= machines.deep_view());
    }
    acc
}

/// The states after every machine checked its timer.
pub open spec fn spec_timer_states(ms: Seq<MachineModel>, now: u64) -> Seq<MachineModel> {
    Seq::new(ms.len(), |i: int| spec_check_timer(ms[i], now).0)
}

/// The actions of all timer checks, machine by machine, in order.
pub open spec fn spec_timer_actions(ms: Seq<MachineModel>, now: u64) -> Seq<
    crate::state_machine::ActionV,
>
    decreases ms.len(),
{
    if ms.len() == 0 {
        Seq::empty()
    } else {
        spec_timer_actions(ms.drop_last(), now) + spec_check_timer(ms.last(), now).1
    }
}

/// Run the deadline check on every machine and collect the actions in
/// machine order.
pub fn check_all_timers(machines: &mut Vec<StateMachine>, now_ms: u64) -> (r: Vec<Action>)
    ensures
        final(machines).deep_view() == spec_timer_states(old(machines).deep_view(), now_ms),
        r.deep_view() == spec_timer_actions(old(machines).deep_view(), now_ms),
{
    let ghost oldm = machines.deep_view();
    let n = machines.len();
    let mut out: Vec<Action> = Vec::new();
    let mut i: usize = 0;
    proof {
        assert(out.deep_view() =~= spec_timer_actions(oldm.take(0), now_ms));
    }
    while i < n
        invariant
            n == machines@.len(),
            i <= n,
            oldm.len() == n,
            out.deep_view() == spec_timer_actions(oldm.take(i as int), now_ms),
            forall|p: int|
                0 <= p < i ==> machines.deep_view()[p] == spec_check_timer(oldm[p], now_ms).0,
            forall|p: int| i <= p < n ==> machines.deep_view()[p] == oldm[p],
        decreases n - i,
    {
        let ghost prev = machines.deep_view();
        let mut acts = machines[i].check_timer(now_ms);
        proof {
            assert(machines.deep_view() =~= prev.update(
                i as int,
                spec_check_timer(oldm[i as int], now_ms).0,
            ));
        }
        out.append(&mut acts);
        i = i + 1;
        proof {
            assert(oldm.take(i as int).drop_last() =~= oldm.take(i as int - 1));
            assert(out.deep_view() =~= spec_timer_actions(oldm.take(i as int), now_ms));
        }
    }
    proof {
        assert(oldm.take(n as int) =~= oldm);
        assert(machines.deep_view() =~= spec_timer_states(oldm, now_ms));
    }
    out
}

/// Dismiss on every machine: those in Popup hide their popup, the rest
/// do nothing.
pub fn dismiss_all(machines: &mut Vec<StateMachine>) -> (r: Vec<Action>)
    ensures
        final(machines).deep_view().len() == old(machines).deep_view().len(),
        forall|p: int|
            0 <= p < old(machines).deep_view().len() ==> final(machines).deep_view()[p]
                == spec_ipc_dismiss(old(machines).deep_view()[p]).0,
        r.deep_view() == spec_dismiss_actions(old(machines).deep_view()),
{
    let ghost oldm = machines.deep_view();
    let n = machines.len();
    let mut out: Vec<Action> = Vec::new();
    let mut i: usize = 0;
    proof {
        assert(out.deep_view() =~= spec_dismiss_actions(oldm.take(0)));
    }
    while i < n
        invariant
            n == machines@.len(),
            i <= n,
            oldm.len() == n,
            out.deep_view() == spec_dismiss_actions(oldm.take(i as int)),
            forall|p: int|
                0 <= p < i ==> machines.deep_view()[p] == spec_ipc_dismiss(oldm[p]).0,
            forall|p: int| i <= p < n ==> machines.deep_view()[p] == oldm[p],
        decreases n - i,
    {
        let ghost prev = machines.deep_view();
        let mut acts = machines[i].ipc_dismiss();
        proof {
            assert(machines.deep_view() =~= prev.update(
                i as int,
                spec_ipc_dismiss(oldm[i as int]).0,
            ));
        }
        out.append(&mut acts);
        i = i + 1;
        proof {
            assert(oldm.take(i as int).drop_last() =~= oldm.take(i as int - 1));
            assert(out.deep_view() =~= spec_dismiss_actions(oldm.take(i as int)));
        }
    }
    proof {
        assert(oldm.take(n as int) =~= oldm);
    }
    out
}

/// The actions of dismissing everywhere, machine by machine.
pub open spec fn spec_dismiss_actions(ms: Seq<MachineModel>) -> Seq<crate::state_machine::ActionV>
    decreases ms.len(),
{
    if ms.len() == 0 {
        Seq::empty()
    } else {
        spec_dismiss_actions(ms.drop_last()) + spec_ipc_dismiss(ms.last()).1
    }
}

/// Where a selection lands: the first machine whose `ipc_select`
/// answers with actions, that is the first machine currently in Popup
/// state; every machine before it is left alone.
pub open spec fn spec_select_first(ms: Seq<MachineModel>, index: u8) -> (
    Seq<MachineModel>,
    Seq<crate::state_machine::ActionV>,
)
    decreases ms.len(),
{
    if ms.len() == 0 {
        (ms, Seq::empty())
    } else {
        let head = spec_ipc_select(ms[0], index);
        if head.1.len() > 0 {
            (ms.update(0, head.0), head.1)
        } else {
            let rest = spec_select_first(ms.drop_first(), index);
            (seq![ms[0]] + rest.0, rest.1)
        }
    }
}

proof fn lemma_select_first_skip(ms: Seq<MachineModel>, index: u8, i: int)
    requires
        0 <= i <= ms.len(),
        forall|p: int| 0 <= p < i ==> spec_ipc_select(ms[p], index).1.len() == 0,
    ensures
        spec_select_first(ms, index).1 == spec_select_first(ms.skip(i), index).1,
        spec_select_first(ms, index).0 =~= ms.take(i) + spec_select_first(ms.skip(i), index).0,
    decreases i,
{
    if i == 0 {
        assert(ms.skip(0) =~= ms);
        assert(ms.take(0) + spec_select_first(ms, index).0 =~= spec_select_first(ms, index).0);
    } else {
        assert(spec_ipc_select(ms[0], index).1.len() == 0);
        let rest = ms.drop_first();
        assert(forall|p: int| 0 <= p < i - 1 ==> rest[p] == ms[p + 1]);
        lemma_select_first_skip(rest, index, i - 1);
        assert(rest.skip(i - 1) =~= ms.skip(i));
        assert(rest.take(i - 1) =~= ms.take(i).drop_first());
        assert(seq![ms[0]] + (rest.take(i - 1) + spec_select_first(ms.skip(i), index).0) =~= ms.take(
            i,
        ) + spec_select_first(ms.skip(i), index).0);
    }
}

/// Route a selection to the first machine currently showing a popup
/// (with the index in range); the others are untouched.
pub fn select_first_popup(machines: &mut Vec<StateMachine>, index: u8) -> (r: Vec<Action>)
    ensures
        final(machines).deep_view() == spec_select_first(old(machines).deep_view(), index).0,
        r.deep_view() == spec_select_first(old(machines).deep_view(), index).1,
{
    let ghost oldm = machines.deep_view();
    let n = machines.len();
    let mut i: usize = 0;
    while i < n
        invariant
            oldm == old(machines).deep_view(),
            n == machines@.len(),
            i <= n,
            oldm.len() == n,
            forall|p: int| 0 <= p < n ==> machines.deep_view()[p] == oldm[p],
            forall|p: int| 0 <= p < i ==> spec_ipc_select(oldm[p], index).1.len() == 0,
        decreases n - i,
    {
        let ghost prev = machines.deep_view();
        let acts = machines[i].ipc_select(index);
        proof {
            assert(machines.deep_view() =~= prev.update(
                i as int,
                spec_ipc_select(oldm[i as int], index).0,
            ));
            assert(acts.deep_view().len() == acts@.len());
        }
        if acts.len() > 0 {
            proof {
                lemma_select_first_skip(oldm, index, i as int);
                assert(prev =~= oldm);
                assert(oldm.skip(i as int)[0] == oldm[i as int]);
                assert(oldm.skip(i as int).drop_first() =~= oldm.skip(i as int + 1));
                assert(spec_select_first(oldm.skip(i as int), index).1 == spec_ipc_select(
                    oldm[i as int],
                    index,
                ).1);
                assert(spec_select_first(oldm.skip(i as int), index).0 == oldm.skip(
                    i as int,
                ).update(0, spec_ipc_select(oldm[i as int], index).0));
                assert(machines.deep_view() =~= oldm.take(i as int) + oldm.skip(i as int).update(
                    0,
                    spec_ipc_select(oldm[i as int], index).0,
                ));
                assert(machines.deep_view() == spec_select_first(oldm, index).0);
            }
            return acts;
        }
        i = i + 1;
    }
    proof {
        lemma_select_first_skip(oldm, index, n as int);
        assert(oldm.skip(n as int) =~= Seq::<MachineModel>::empty());
        assert(machines.deep_view() =~= spec_select_first(oldm, index).0);
    }
    let empty: Vec<Action> = Vec::new();
    proof {
        assert(empty.deep_view() =~= Seq::<crate::state_machine::ActionV>::empty());
    }
    empty
}

/// Switch every machine on or off; switching off forces them all Idle.
pub fn set_all_enabled(machines: &mut Vec<StateMachine>, enabled: bool)
    ensures
        final(machines).deep_view().len() == old(machines).deep_view().len(),
        forall|p: int|
            0 <= p < old(machines).deep_view().len() ==> final(machines).deep_view()[p]
                == (MachineModel {
                enabled,
                state: if enabled {
                    old(machines).deep_view()[p].state
                } else {
                    StateModel::Idle
                },
                ..old(machines).deep_view()[p]
            }),
{
    let ghost oldm = machines.deep_view();
    let n = machines.len();
    let mut i: usize = 0;
    while i < n
        invariant
            n == machines@.len(),
            i <= n,
            oldm.len() == n,
            forall|p: int|
                0 <= p < i ==> machines.deep_view()[p] == (MachineModel {
                    enabled,
                    state: if enabled {
                        oldm[p].state
                    } else {
                        StateModel::Idle
                    },
                    ..oldm[p]
                }),
            forall|p: int| i <= p < n ==> machines.deep_view()[p] == oldm[p],
        decreases n - i,
    {
        let ghost prev = machines.deep_view();
        machines[i].set_enabled(enabled);
        proof {
            assert(machines.deep_view() =~= prev.update(
                i as int,
                MachineModel {
                    enabled,
                    state: if enabled {
                        oldm[i as int].state
                    } else {
                        StateModel::Idle
                    },
                    ..oldm[i as int]
                },
            ));
        }
        i = i + 1;
    }
}

/// Flip the enabled state of the whole set, going by the first
/// machine, as the Toggle command does; an empty set toggles to off.
/// Returns the new state.
pub fn toggle_all(machines: &mut Vec<StateMachine>) -> (r: bool)
    ensures
        r == (if old(machines).deep_view().len() > 0 {
            !old(machines).deep_view()[0].enabled
        } else {
            false
        }),
        final(machines).deep_view().len() == old(machines).deep_view().len(),
        forall|p: int|
            0 <= p < old(machines).deep_view().len() ==> final(machines).deep_view()[p]
                == (MachineModel {
                enabled: r,
                state: if r {
                    old(machines).deep_view()[p].state
                } else {
                    StateModel::Idle
                },
                ..old(machines).deep_view()[p]
            }),
{
    let new_state = if machines.len() > 0 {
        !machines[0].is_enabled()
    } else {
        false
    };
    set_all_enabled(machines, new_state);
    new_state
}

/// Install a locale map on every machine, forcing each Idle.
pub fn set_all_locale(machines: &mut Vec<StateMachine>, map: &crate::charmap::LocaleMap)
    ensures
        final(machines).deep_view().len() == old(machines).deep_view().len(),
        forall|p: int|
            0 <= p < old(machines).deep_view().len() ==> final(machines).deep_view()[p]
                == (MachineModel {
                locale: map@,
                state: StateModel::Idle,
                ..old(machines).deep_view()[p]
            }),
{
    let ghost oldm = machines.deep_view();
    let n = machines.len();
    let mut i: usize = 0;
    while i < n
        invariant
            n == machines@.len(),
            i <= n,
            oldm.len() == n,
            forall|p: int|
                0 <= p < i ==> machines.deep_view()[p] == (MachineModel {
                    locale: map@,
                    state: StateModel::Idle,
                    ..oldm[p]
                }),
            forall|p: int| i <= p < n ==> machines.deep_view()[p] == oldm[p],
        decreases n - i,
    {
        let ghost prev = machines.deep_view();
        machines[i].set_locale_map(map.duplicate());
        proof {
            assert(machines.deep_view() =~= prev.update(
                i as int,
                MachineModel { locale: map@, state: StateModel::Idle, ..oldm[i as int] },
            ));
        }
        i = i + 1;
    }
}

/// The status reply for the GetStatus command: the enabled flag of the
/// first machine (false when there is none) with the active locale and
/// the daemon version.
pub fn status_of(machines: &Vec<StateMachine>, locale: &str, version: &str) -> (r: DaemonMsg)
    ensures
        r.deep_view() == (DaemonMsgV::Status {
            enabled: if machines.deep_view().len() > 0 {
                machines.deep_view()[0].enabled
            } else {
                false
            },
            locale: locale@,
            version: version@,
        }),
{
    let enabled = if machines.len() > 0 {
        machines[0].is_enabled()
    } else {
        false
    };
    DaemonMsg::Status {
        enabled,
        locale: String::from_str(locale),
        version: String::from_str(version),
    }
}

/// The acknowledgement for a failed locale switch, with the exact
/// wording clients see.
pub fn ack_locale_failed(locale: &str, reason: &str) -> (r: DaemonMsg)
    ensures
        r.deep_view() == (DaemonMsgV::Ack {
            ok: false,
            message: "failed to load locale '"@ + locale@ + "': "@ + reason@,
        }),
{
    let mut message = String::new();
    push_str(&mut message, "failed to load locale '");
    push_str(&mut message, locale);
    push_str(&mut message, "': ");
    push_str(&mut message, reason);
    DaemonMsg::Ack { ok: false, message }
}

/// A positive acknowledgement with the given wording.
pub fn ack_ok(message: &str) -> (r: DaemonMsg)
    ensures
        r.deep_view() == (DaemonMsgV::Ack { ok: true, message: message@ }),
{
    DaemonMsg::Ack { ok: true, message: String::from_str(message) }
}

/// Whether a discovered input device should be grabbed as a keyboard:
/// not the daemon's own virtual device (whose name carries "accentd",
/// to avoid a feedback loop), and advertising the A, Z and Enter keys.
pub fn keep_device(name_has_accentd: bool, has_a: bool, has_z: bool, has_enter: bool) -> (r: bool)
    ensures
        r == (!name_has_accentd && has_a && has_z && has_enter),
{
    !name_has_accentd && has_a && has_z && has_enter
}

/// The last three key presses, oldest first, for the panic escape:
/// Backspace, Escape, Enter within one second exits the daemon,
/// releasing the exclusive device grabs.
pub struct PanicRing {
    first: (u16, u64),
    second: (u16, u64),
    third: (u16, u64),
}

impl View for PanicRing {
    type V = Seq<(u16, u64)>;

    closed spec fn view(&self) -> Seq<(u16, u64)> {
        seq![self.first, self.second, self.third]
    }
}

/// Whether the last three presses, oldest first, are the panic escape
/// chord typed within one second.
pub open spec fn spec_panic_hit(s: Seq<(u16, u64)>) -> bool {
    &&& s.len() == 3
    &&& s[0].0 == KEY_BACKSPACE
    &&& s[1].0 == KEY_ESC
    &&& s[2].0 == KEY_ENTER
    &&& s[2].1 >= s[0].1
    &&& s[2].1 - s[0].1 < 1000
}

impl PanicRing {
    /// An empty ring: three entries of key 0 at time 0.
    pub fn new() -> (r: PanicRing)
        ensures
            r@ == seq![(0u16, 0u64), (0u16, 0u64), (0u16, 0u64)],
    {
        let r = PanicRing { first: (0, 0), second: (0, 0), third: (0, 0) };
        proof {
            assert(r@ =~= seq![(0u16, 0u64), (0u16, 0u64), (0u16, 0u64)]);
        }
        r
    }

    /// Record a key press; true means the escape chord was completed
    /// and the daemon must exit.
    pub fn record(&mut self, code: u16, now_ms: u64) -> (r: bool)
        ensures
            final(self)@ == old(self)@.subrange(1, 3).push((code, now_ms)),
            r == spec_panic_hit(final(self)@),
    {
        self.first = self.second;
        self.second = self.third;
        self.third = (code, now_ms);
        proof {
            assert(self@ =~= old(self)@.subrange(1, 3).push((code, now_ms)));
        }
        self.first.0 == KEY_BACKSPACE && self.second.0 == KEY_ESC && self.third.0 == KEY_ENTER
            && self.third.1 >= self.first.1 && self.third.1 - self.first.1 < 1000
    }
}

} // verus!

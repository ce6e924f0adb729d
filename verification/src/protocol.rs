//! The control-protocol state machine.
//!
//! Every component instance moves through the same lifecycle:
//! `Uninitialized -> Initialized -> Wiring -> Running -> Terminated`.
//! The substrate only ever delivers an event that the automaton admits
//! in the component's current phase, which is what gives each component
//! the ordering guarantee: `Init` first, wiring next, `Start` at most
//! once, payload deliveries only while running, and a terminal event
//! last.

use vstd::prelude::*;

verus! {

/// The lifecycle phase of one component instance.
#[derive(Clone, Copy, Debug, PartialEq, Eq, Structural)]
pub enum Phase {
    /// No event delivered yet.
    Uninitialized,
    /// `Init` has been delivered; the capability object is stored.
    Initialized,
    /// At least one topology notification has been delivered.
    Wiring,
    /// `Start` has been delivered; payload deliveries may follow.
    Running,
    /// `Stop` or `Err` has been delivered; no further events follow.
    Terminated,
}

/// The shape of one delivered control event, with payloads erased;
/// what the ordering guarantee speaks about.
#[derive(Clone, Copy, Debug, PartialEq, Eq, Structural)]
pub enum EventKind {
    /// `Init`: the component receives its capability object.
    Init,
    /// `AddInput` or `AddOutput`: a topology notification.
    Wire,
    /// `Start`: wiring is complete, execution begins.
    Start,
    /// `Signal`: an arrived payload message.
    Signal,
    /// `Stop` or `Err`: terminal.
    Terminal,
}

impl EventKind {
    /// Whether this event ends a component's participation.
    pub open spec fn is_terminal(self) -> bool {
        self == EventKind::Terminal
    }
}

/// The phase reached by delivering `kind` in phase `phase`, or `None`
/// where the protocol forbids that delivery.
pub open spec fn phase_step(phase: Phase, kind: EventKind) -> Option<Phase> {
    match (phase, kind) {
        (Phase::Uninitialized, EventKind::Init) => Some(Phase::Initialized),
        (Phase::Initialized, EventKind::Wire) => Some(Phase::Wiring),
        (Phase::Wiring, EventKind::Wire) => Some(Phase::Wiring),
        (Phase::Initialized, EventKind::Start) => Some(Phase::Running),
        (Phase::Wiring, EventKind::Start) => Some(Phase::Running),
        (Phase::Running, EventKind::Signal) => Some(Phase::Running),
        (Phase::Initialized, EventKind::Terminal) => Some(Phase::Terminated),
        (Phase::Wiring, EventKind::Terminal) => Some(Phase::Terminated),
        (Phase::Running, EventKind::Terminal) => Some(Phase::Terminated),
        _ => None,
    }
}

/// The phase reached by delivering a whole sequence of events from
/// `Uninitialized`, or `None` if some delivery along the way is out of
/// order.
pub open spec fn run_phases(trace: Seq<EventKind>) -> Option<Phase>
    decreases trace.len(),
{
    if trace.len() == 0 {
        Some(Phase::Uninitialized)
    } else {
        match run_phases(trace.drop_last()) {
            Some(p) => phase_step(p, trace.last()),
            None => None,
        }
    }
}

/// A sequence of events that the protocol admits for one component.
pub open spec fn protocol_ok(trace: Seq<EventKind>) -> bool {
    run_phases(trace) is Some
}

/// Executable phase transition, mirroring `phase_step`.
pub fn advance_phase(phase: Phase, kind: EventKind) -> (r: Option<Phase>)
    ensures
        r == phase_step(phase, kind),
{
    match (phase, kind) {
        (Phase::Uninitialized, EventKind::Init) => Some(Phase::Initialized),
        (Phase::Initialized, EventKind::Wire) => Some(Phase::Wiring),
        (Phase::Wiring, EventKind::Wire) => Some(Phase::Wiring),
        (Phase::Initialized, EventKind::Start) => Some(Phase::Running),
        (Phase::Wiring, EventKind::Start) => Some(Phase::Running),
        (Phase::Running, EventKind::Signal) => Some(Phase::Running),
        (Phase::Initialized, EventKind::Terminal) => Some(Phase::Terminated),
        (Phase::Wiring, EventKind::Terminal) => Some(Phase::Terminated),
        (Phase::Running, EventKind::Terminal) => Some(Phase::Terminated),
        _ => None,
    }
}

/// Every prefix of an admitted trace is admitted, and reaches the
/// phase that its own run computes.
pub proof fn lemma_prefix_ok(trace: Seq<EventKind>, n: int)
    requires
        protocol_ok(trace),
        0 <= n <= trace.len(),
    ensures
        protocol_ok(trace.take(n)),
    decreases trace.len() - n,
{
    if n < trace.len() {
        lemma_prefix_ok(trace, n + 1);
        assert(trace.take(n + 1).drop_last() =~= trace.take(n));
    } else {
        assert(trace.take(n) =~= trace);
    }
}

/// In an admitted, non-empty trace the first event is `Init`, and no
/// later event is another `Init`.
pub proof fn lemma_init_first(trace: Seq<EventKind>)
    requires
        protocol_ok(trace),
        trace.len() > 0,
    ensures
        trace[0] == EventKind::Init,
        forall|i: int| 0 < i < trace.len() ==> trace[i] != EventKind::Init,
    decreases trace.len(),
{
    if trace.len() == 1 {
        assert(trace.drop_last().len() == 0);
    } else {
        lemma_init_first(trace.drop_last());
        assert(trace[0] == trace.drop_last()[0]);
        // the last event cannot be Init: the automaton leaves
        // Uninitialized after the first event and never returns
        lemma_phase_not_uninitialized(trace.drop_last());
        assert forall|i: int| 0 < i < trace.len() implies trace[i] != EventKind::Init by {
            if i < trace.len() - 1 {
                assert(trace[i] == trace.drop_last()[i]);
            }
        }
    }
}

/// After at least one event, an admitted trace is no longer in
/// `Uninitialized`.
pub proof fn lemma_phase_not_uninitialized(trace: Seq<EventKind>)
    requires
        protocol_ok(trace),
        trace.len() > 0,
    ensures
        run_phases(trace) != Some(Phase::Uninitialized),
    decreases trace.len(),
{
    if trace.len() > 1 {
        lemma_phase_not_uninitialized(trace.drop_last());
    }
}

/// `Start` appears at most once in an admitted trace.
pub proof fn lemma_start_at_most_once(trace: Seq<EventKind>, i: int, j: int)
    requires
        protocol_ok(trace),
        0 <= i < j < trace.len(),
        trace[i] == EventKind::Start,
    ensures
        trace[j] != EventKind::Start,
    decreases trace.len(),
{
    if j == trace.len() - 1 {
        lemma_running_stays(trace, i + 1);
    } else {
        lemma_start_at_most_once(trace.drop_last(), i, j);
    }
}

/// Once `Start` has run, the phase is `Running` or `Terminated` from
/// then on: the automaton admits no further `Start` and no `Wire`.
pub proof fn lemma_running_stays(trace: Seq<EventKind>, n: int)
    requires
        protocol_ok(trace),
        0 < n <= trace.len(),
        trace[n - 1] == EventKind::Start || trace[n - 1] == EventKind::Signal
            || trace[n - 1] == EventKind::Terminal,
    ensures
        run_phases(trace.take(n)) == Some(Phase::Running)
            || run_phases(trace.take(n)) == Some(Phase::Terminated),
        forall|k: int| n <= k < trace.len() ==> trace[k] != EventKind::Start
            && trace[k] != EventKind::Wire,
    decreases trace.len() - n,
{
    lemma_prefix_ok(trace, n);
    assert(trace.take(n).drop_last() =~= trace.take(n - 1));
    lemma_prefix_ok(trace, n - 1);
    if n < trace.len() {
        lemma_prefix_ok(trace, n + 1);
        assert(trace.take(n + 1).drop_last() =~= trace.take(n));
        assert(trace.take(n + 1).last() == trace[n]);
        lemma_running_stays(trace, n + 1);
    }
}

/// All wiring happens before `Start`: in an admitted trace no `Wire`
/// event follows a `Start`.
pub proof fn lemma_wiring_before_start(trace: Seq<EventKind>, i: int, j: int)
    requires
        protocol_ok(trace),
        0 <= i < j < trace.len(),
        trace[i] == EventKind::Start,
    ensures
        trace[j] != EventKind::Wire,
{
    lemma_running_stays(trace, i + 1);
}

/// Nothing follows a terminal event: if an admitted trace contains a
/// `Stop` or `Err`, it is the last event.
pub proof fn lemma_terminal_is_last(trace: Seq<EventKind>, i: int)
    requires
        protocol_ok(trace),
        0 <= i < trace.len(),
        trace[i].is_terminal(),
    ensures
        i == trace.len() - 1,
    decreases trace.len(),
{
    if i < trace.len() - 1 {
        lemma_prefix_ok(trace, i + 1);
        lemma_prefix_ok(trace, i + 2);
        assert(trace.take(i + 1).drop_last() =~= trace.take(i));
        assert(trace.take(i + 2).drop_last() =~= trace.take(i + 1));
        assert(trace.take(i + 2).last() == trace[i + 1]);
    }
}

/// The protocol-ordering guarantee in one statement: in any admitted,
/// non-empty event history, the first event is `Init` and the only one;
/// `Start` occurs at most once; every wiring notification precedes
/// `Start`; and a terminal event, if present, is the last event.
pub proof fn lemma_protocol_ordering(trace: Seq<EventKind>)
    requires
        protocol_ok(trace),
        trace.len() > 0,
    ensures
        trace[0] == EventKind::Init,
        forall|i: int, j: int|
            0 <= i < j < trace.len() && trace[i] == EventKind::Start
                ==> trace[j] != EventKind::Start && trace[j] != EventKind::Wire,
        forall|i: int| 0 <= i < trace.len() && trace[i].is_terminal() ==> i == trace.len() - 1,
{
    lemma_init_first(trace);
    assert forall|i: int, j: int|
        0 <= i < j < trace.len() && trace[i] == EventKind::Start
        implies trace[j] != EventKind::Start && trace[j] != EventKind::Wire by {
        lemma_running_stays(trace, i + 1);
    }
    assert forall|i: int| 0 <= i < trace.len() && trace[i].is_terminal()
        implies i == trace.len() - 1 by {
        lemma_terminal_is_last(trace, i);
    }
}

} // verus!

//! The composite orchestrator and network driver.
//!
//! An organelle owns a registry of child somas, the set of declared
//! connections between them, and one internal relay channel. It routes
//! payload messages between children — re-addressing messages that
//! leave through its boundary so that the outside world sees the
//! organelle, not an interior part, as the sender — and escalates what
//! it cannot resolve to its parent. An organelle is itself a soma, so
//! whole networks nest behind the ordinary component interface; used
//! at top level with `run`, it is the network driver.

use vstd::prelude::*;
use crate::channel::Channel;
use crate::fault::Fault;
use crate::handle::Handle;
use crate::protocol::{phase_step, run_phases, EventKind, Phase};
use crate::soma::{Action, Effector, Impulse, Soma};

verus! {

/// Capacity of an organelle's internal relay channel.
pub const RELAY_CAPACITY: usize = 100;

/// Most relay actions processed in one drain pass; what is left over
/// stays queued, in order, for the next pass.
pub const DRAIN_BUDGET: usize = 1024;

/// One registry slot: a child soma together with its identity, its
/// protocol phase and (in ghost form) the events delivered to it. The
/// slot owns the soma exclusively; after a failed transition it is
/// empty and the child takes no further part.
pub struct NodeEntry<C> {
    handle: Handle,
    soma: Option<C>,
    phase: Phase,
    trace: Ghost<Seq<EventKind>>,
}

impl<C> NodeEntry<C> {
    /// The handle naming this child.
    pub closed spec fn handle_spec(&self) -> Handle {
        self.handle
    }

    /// The held soma, or `None` after a failed transition.
    pub closed spec fn soma_spec(&self) -> Option<C> {
        self.soma
    }

    /// The child's protocol phase.
    pub closed spec fn phase_spec(&self) -> Phase {
        self.phase
    }

    /// The events delivered to this child so far.
    pub closed spec fn trace_spec(&self) -> Seq<EventKind> {
        self.trace@
    }

    /// The phase is exactly what the delivered events produce: the
    /// trace is admitted by the protocol automaton and reaches `phase`.
    pub open spec fn consistent(&self) -> bool {
        run_phases(self.trace_spec()) == Some(self.phase_spec())
    }
}

impl<C: Soma> NodeEntry<C> {
    /// The held soma, if any, is well formed.
    pub open spec fn inv_ok(&self) -> bool {
        match self.soma_spec() {
            Some(s) => s.inv(),
            None => true,
        }
    }

    /// This child will take no further part and has wound down
    /// correctly: it failed (and was dropped), never participated, or
    /// observed a terminal event and reports itself stopped.
    pub open spec fn done(&self) -> bool {
        match self.soma_spec() {
            None => true,
            Some(s) => self.phase_spec() is Uninitialized
                || (self.phase_spec() is Terminated && s.stopped()),
        }
    }
}

/// Deliver one impulse to a registry slot: take the soma out, apply
/// its transition, put the result back. An empty slot ignores the
/// impulse; a failed transition empties the slot and escalates.
fn deliver<C: Soma>(entry: NodeEntry<C>, imp: Impulse<C::Signal, C::Synapse>) -> (r: (
    NodeEntry<C>,
    Result<Vec<Action<C::Signal>>, Fault>,
))
    requires
        entry.consistent(),
        entry.inv_ok(),
        entry.soma_spec() is Some ==> phase_step(entry.phase_spec(), imp.kind()) is Some,
    ensures
        r.0.consistent(),
        r.0.inv_ok(),
        r.0.handle_spec() == entry.handle_spec(),
        entry.soma_spec() is None ==> r.0 == entry,
        entry.soma_spec() is Some ==> {
            &&& r.0.phase_spec() == phase_step(entry.phase_spec(), imp.kind()).unwrap()
            &&& r.0.trace_spec() == entry.trace_spec().push(imp.kind())
        },
        (match r.1 {
            Ok(_) => entry.soma_spec() is Some ==> r.0.soma_spec() is Some,
            Err(_) => r.0.soma_spec() is None,
        }),
        entry.soma_spec() is None ==> (match r.1 {
            Ok(acts) => acts@ == Seq::<Action<C::Signal>>::empty(),
            Err(_) => false,
        }),
        imp.kind().is_terminal() ==> r.0.done(),
{
    let NodeEntry { handle, soma, phase, trace } = entry;
    let ghost kind = imp.kind();
    match soma {
        None => (NodeEntry { handle, soma: None, phase, trace }, Ok(Vec::new())),
        Some(s) => {
            let next_phase = match crate::protocol::advance_phase(phase, imp_kind(&imp)) {
                Some(p) => p,
                None => vstd::pervasive::unreached(),
            };
            let ghost new_trace = trace@.push(kind);
            proof {
                assert(new_trace.drop_last() =~= trace@);
                assert(run_phases(new_trace) == Some(next_phase));
            }
            match s.update(imp) {
                Ok((s2, acts)) => (
                    NodeEntry {
                        handle,
                        soma: Some(s2),
                        phase: next_phase,
                        trace: Ghost(new_trace),
                    },
                    Ok(acts),
                ),
                Err(e) => (
                    NodeEntry { handle, soma: None, phase: next_phase, trace: Ghost(new_trace) },
                    Err(e),
                ),
            }
        },
    }
}

/// The executable counterpart of `Impulse::kind`.
fn imp_kind<S, Y>(imp: &Impulse<S, Y>) -> (k: EventKind)
    ensures
        k == imp.kind(),
{
    match imp {
        Impulse::Init(_) => EventKind::Init,
        Impulse::AddInput(_, _) => EventKind::Wire,
        Impulse::AddOutput(_, _) => EventKind::Wire,
        Impulse::Start => EventKind::Start,
        Impulse::Payload(_, _, _) => EventKind::Signal,
        Impulse::Signal(_, _) => EventKind::Signal,
        Impulse::Stop => EventKind::Terminal,
        Impulse::Error(_) => EventKind::Terminal,
    }
}

/// Whether some entry of the registry sequence is named `h`.
pub open spec fn seq_knows<C>(es: Seq<NodeEntry<C>>, h: Handle) -> bool {
    exists|i: int| 0 <= i < es.len() && (#[trigger] es[i]).handle_spec() == h
}

/// No two entries of the registry sequence share a handle.
pub open spec fn seq_distinct<C>(es: Seq<NodeEntry<C>>) -> bool {
    forall|i: int, j: int|
        0 <= i < j < es.len() ==> (#[trigger] es[i]).handle_spec() != (#[trigger] es[j]).handle_spec()
}

/// The phase a child may be in, given the organelle's own phase `p`:
/// children are initialized by the organelle's `Init`, started by its
/// `Start`, and wound down by its terminal event.
pub open spec fn entry_phase_ok<C: Soma>(p: Phase, e: NodeEntry<C>) -> bool {
    match p {
        Phase::Uninitialized => e.phase_spec() is Uninitialized,
        Phase::Initialized => !(e.phase_spec() is Running) && !(e.phase_spec() is Terminated),
        Phase::Wiring => !(e.phase_spec() is Running) && !(e.phase_spec() is Terminated),
        Phase::Running => e.soma_spec() is Some ==> e.phase_spec() is Running,
        Phase::Terminated => e.done(),
    }
}

/// Every entry is consistent with the events delivered to it and with
/// the organelle's own phase `p`.
pub open spec fn entries_ok<C: Soma>(p: Phase, es: Seq<NodeEntry<C>>) -> bool {
    forall|i: int|
        0 <= i < es.len() ==> (#[trigger] es[i]).consistent() && es[i].inv_ok()
            && entry_phase_ok(p, es[i])
}

/// Every declared connection joins entries known in the registry.
pub open spec fn conns_known<C, Y>(es: Seq<NodeEntry<C>>, cs: Seq<Connection<Y>>) -> bool {
    forall|k: int|
        0 <= k < cs.len() ==> seq_knows(es, (#[trigger] cs[k]).input) && seq_knows(
            es,
            cs[k].output,
        )
}

/// Appending an entry keeps every known handle known, and makes the
/// new entry's handle known.
proof fn lemma_seq_knows_push<C>(es: Seq<NodeEntry<C>>, e: NodeEntry<C>, h: Handle)
    ensures
        seq_knows(es, h) ==> seq_knows(es.push(e), h),
        e.handle_spec() == h ==> seq_knows(es.push(e), h),
{
    if seq_knows(es, h) {
        let i = choose|i: int| 0 <= i < es.len() && (#[trigger] es[i]).handle_spec() == h;
        assert(es.push(e)[i].handle_spec() == h);
    }
    if e.handle_spec() == h {
        assert(es.push(e)[es.len() as int].handle_spec() == h);
    }
}

/// Appending an entry with a fresh handle keeps handles distinct.
proof fn lemma_seq_distinct_push<C>(es: Seq<NodeEntry<C>>, e: NodeEntry<C>)
    requires
        seq_distinct(es),
        !seq_knows(es, e.handle_spec()),
    ensures
        seq_distinct(es.push(e)),
{
    assert forall|i: int, j: int| 0 <= i < j < es.push(e).len()
        implies (#[trigger] es.push(e)[i]).handle_spec() != (#[trigger] es.push(e)[j]).handle_spec()
    by {
        if j < es.len() {
            assert(es[i].handle_spec() != es[j].handle_spec());
        } else {
            assert(es.push(e)[j] == e);
            assert(es.push(e)[i] == es[i]);
            if es[i].handle_spec() == e.handle_spec() {
                assert(seq_knows(es, e.handle_spec()));
            }
        }
    }
}

/// Appending an entry keeps every declared connection known.
proof fn lemma_conns_known_push<C, Y>(
    es: Seq<NodeEntry<C>>,
    cs: Seq<Connection<Y>>,
    e: NodeEntry<C>,
)
    requires
        conns_known(es, cs),
    ensures
        conns_known(es.push(e), cs),
{
    assert forall|k: int| 0 <= k < cs.len()
        implies seq_knows(es.push(e), (#[trigger] cs[k]).input) && seq_knows(
            es.push(e),
            cs[k].output,
        )
    by {
        lemma_seq_knows_push(es, e, cs[k].input);
        lemma_seq_knows_push(es, e, cs[k].output);
    }
}

/// A slot fit to receive wiring notifications: consistent, well
/// formed, not yet running, and — if the child is alive — already
/// initialized.
spec fn wirable<C: Soma>(e: NodeEntry<C>) -> bool {
    &&& e.consistent()
    &&& e.inv_ok()
    &&& !(e.phase_spec() is Running)
    &&& !(e.phase_spec() is Terminated)
    &&& (e.soma_spec() is Some ==> (e.phase_spec() is Initialized || e.phase_spec() is Wiring))
}

/// A slot after `Start` has been propagated: consistent, well formed,
/// and — if the child is alive — running.
spec fn started<C: Soma>(e: NodeEntry<C>) -> bool {
    &&& e.consistent()
    &&& e.inv_ok()
    &&& (e.soma_spec() is Some ==> e.phase_spec() is Running)
}

/// How a registry slot may change when pending children are
/// initialized: an uninitialized child with a soma observes exactly
/// one `Init`; every other slot is untouched.
spec fn inited_from<C: Soma>(o: NodeEntry<C>, e: NodeEntry<C>) -> bool {
    &&& e.handle_spec() == o.handle_spec()
    &&& e.consistent()
    &&& e.inv_ok()
    &&& (o.soma_spec() is None ==> e == o)
    &&& (!(o.phase_spec() is Uninitialized) ==> e == o)
    &&& ((o.soma_spec() is Some && o.phase_spec() is Uninitialized) ==> e.phase_spec()
        is Initialized && e.trace_spec() == o.trace_spec().push(EventKind::Init))
}

/// Prefixes chain: a prefix of a prefix is a prefix.
proof fn lemma_prefix_trans<A>(a: Seq<A>, b: Seq<A>, c: Seq<A>)
    requires
        a.is_prefix_of(b),
        b.is_prefix_of(c),
    ensures
        a.is_prefix_of(c),
{
    assert(a =~= c.subrange(0, a.len() as int));
}

/// Registry sequences with pointwise-equal handles know the same
/// handles.
proof fn lemma_seq_knows_same_handles<C>(es1: Seq<NodeEntry<C>>, es2: Seq<NodeEntry<C>>, h: Handle)
    requires
        es1.len() == es2.len(),
        forall|i: int| 0 <= i < es1.len() ==> (#[trigger] es2[i]).handle_spec()
            == es1[i].handle_spec(),
        seq_knows(es1, h),
    ensures
        seq_knows(es2, h),
{
    let i = choose|i: int| 0 <= i < es1.len() && (#[trigger] es1[i]).handle_spec() == h;
    assert(es2[i].handle_spec() == h);
}

/// Registry sequences with pointwise-equal handles know the same
/// connections.
proof fn lemma_conns_known_same_handles<C, Y>(
    es1: Seq<NodeEntry<C>>,
    es2: Seq<NodeEntry<C>>,
    cs: Seq<Connection<Y>>,
)
    requires
        conns_known(es1, cs),
        es1.len() == es2.len(),
        forall|i: int| 0 <= i < es1.len() ==> (#[trigger] es2[i]).handle_spec()
            == es1[i].handle_spec(),
    ensures
        conns_known(es2, cs),
{
    assert forall|k: int| 0 <= k < cs.len()
        implies seq_knows(es2, (#[trigger] cs[k]).input) && seq_knows(es2, cs[k].output) by {
        assert(seq_knows(es1, cs[k].input));
        assert(seq_knows(es1, cs[k].output));
        lemma_seq_knows_same_handles(es1, es2, cs[k].input);
        lemma_seq_knows_same_handles(es1, es2, cs[k].output);
    }
}

/// Whether the organelle holds a child named `target` whose last
/// delivered event, if the child is still alive, was a wiring
/// notification: what forwarding `AddInput`/`AddOutput` to a
/// distinguished child leaves behind.
pub open spec fn wired_child<C: Soma>(org: Organelle<C>, target: Handle) -> bool {
    exists|i: int|
        0 <= i < org.entry_count() && (#[trigger] org.entries_view()[i]).handle_spec() == target
            && (org.entries_view()[i].soma_spec() is Some ==> org.entries_view()[i].trace_spec().len()
            > 0 && org.entries_view()[i].trace_spec().last() == EventKind::Wire)
}

/// Whether some action in the sequence is an error escalation.
pub open spec fn has_error<S>(acts: Seq<Action<S>>) -> bool {
    exists|k: int| 0 <= k < acts.len() && (#[trigger] acts[k]) is Error
}

/// The cause of the first error escalation in the sequence, if any.
pub open spec fn spec_first_error<S>(acts: Seq<Action<S>>) -> Option<Fault>
    decreases acts.len(),
{
    if acts.len() == 0 {
        None
    } else {
        match acts[0] {
            Action::Error(e) => Some(e),
            _ => spec_first_error(acts.drop_first()),
        }
    }
}

/// Find the cause of the first error escalation among the given
/// actions, if any.
fn first_error<S>(acts: &Vec<Action<S>>) -> (r: Option<Fault>)
    ensures
        r == spec_first_error(acts@),
        r is Some <==> has_error(acts@),
{
    let mut i: usize = 0;
    proof {
        assert(acts@.skip(0) =~= acts@);
    }
    while i < acts.len()
        invariant
            i <= acts.len(),
            forall|k: int| 0 <= k < i ==> !((#[trigger] acts@[k]) is Error),
            spec_first_error(acts@) == spec_first_error(acts@.skip(i as int)),
        decreases acts.len() - i,
    {
        match &acts[i] {
            Action::Error(e) => {
                proof {
                    assert(acts@.skip(i as int)[0] == acts@[i as int]);
                }
                return Some(e.duplicate());
            },
            _ => {},
        }
        proof {
            assert(acts@.skip(i as int).drop_first() =~= acts@.skip(i + 1));
            assert(acts@.skip(i as int)[0] == acts@[i as int]);
        }
        i += 1;
    }
    proof {
        assert(acts@.skip(acts@.len() as int) =~= Seq::<Action<S>>::empty());
    }
    None
}

/// Collected escalations survive appending one more: every stop,
/// error or rewritten payload already covered by the collected
/// actions, plus whatever the appended element covers, is covered by
/// the extended collection.
proof fn lemma_coverage_survives_push<C: Soma>(
    org: Organelle<C>,
    processed: Seq<Action<C::Signal>>,
    prev: Seq<Action<C::Signal>>,
    out: Seq<Action<C::Signal>>,
)
    requires
        processed.len() > 0,
        prev.len() <= out.len(),
        forall|j: int| 0 <= j < prev.len() ==> #[trigger] out[j] == prev[j],
        forall|k: int|
            0 <= k < processed.len() - 1 && ((#[trigger] processed[k]) is Stop || processed[k]
                is Error) ==> exists|j: int| 0 <= j < prev.len() && prev[j] == processed[k],
        forall|k: int|
            0 <= k < processed.len() - 1 ==> (match #[trigger] processed[k] {
                Action::Payload { src, dest, msg } => !org.knows(dest) ==> exists|j: int|
                    0 <= j < prev.len() && prev[j] == (Action::Payload {
                        src: org.apparent_source(src, dest),
                        dest,
                        msg,
                    }),
                _ => true,
            }),
        ((processed.last() is Stop || processed.last() is Error) ==> exists|j: int|
            0 <= j < out.len() && out[j] == processed.last()),
        (match processed.last() {
            Action::Payload { src, dest, msg } => !org.knows(dest) ==> exists|j: int|
                0 <= j < out.len() && out[j] == (Action::Payload {
                    src: org.apparent_source(src, dest),
                    dest,
                    msg,
                }),
            _ => true,
        }),
    ensures
        forall|k: int|
            0 <= k < processed.len() && ((#[trigger] processed[k]) is Stop || processed[k]
                is Error) ==> exists|j: int| 0 <= j < out.len() && out[j] == processed[k],
        forall|k: int|
            0 <= k < processed.len() ==> (match #[trigger] processed[k] {
                Action::Payload { src, dest, msg } => !org.knows(dest) ==> exists|j: int|
                    0 <= j < out.len() && out[j] == (Action::Payload {
                        src: org.apparent_source(src, dest),
                        dest,
                        msg,
                    }),
                _ => true,
            }),
{
    assert forall|k: int|
        0 <= k < processed.len() && ((#[trigger] processed[k]) is Stop || processed[k] is Error)
        implies exists|j: int| 0 <= j < out.len() && out[j] == processed[k] by {
        if k < processed.len() - 1 {
            let j = choose|j: int| 0 <= j < prev.len() && prev[j] == processed[k];
            assert(out[j] == processed[k]);
        }
    }
    assert forall|k: int| 0 <= k < processed.len() implies (match #[trigger] processed[k] {
        Action::Payload { src, dest, msg } => !org.knows(dest) ==> exists|j: int|
            0 <= j < out.len() && out[j] == (Action::Payload {
                src: org.apparent_source(src, dest),
                dest,
                msg,
            }),
        _ => true,
    }) by {
        match processed[k] {
            Action::Payload { src, dest, msg } => {
                if !org.knows(dest) && k < processed.len() - 1 {
                    let j = choose|j: int|
                        0 <= j < prev.len() && prev[j] == (Action::Payload {
                            src: org.apparent_source(src, dest),
                            dest,
                            msg,
                        });
                    assert(out[j] == (Action::Payload {
                        src: org.apparent_source(src, dest),
                        dest,
                        msg,
                    }));
                }
            },
            _ => {},
        }
    }
}

/// Re-assemble the organelle invariant after a step that kept the
/// registry's handles, the distinguished children and the declared
/// connections unchanged.
proof fn lemma_wf_same_handles<C: Soma>(pre: Organelle<C>, post: Organelle<C>)
    requires
        pre.wf(),
        post.relay_ok(),
        post.nucleus_spec() == pre.nucleus_spec(),
        post.input_spec() == pre.input_spec(),
        post.output_spec() == pre.output_spec(),
        post.connections_view() == pre.connections_view(),
        post.entry_count() == pre.entry_count(),
        forall|i: int| 0 <= i < pre.entry_count() ==> (#[trigger] post.entries_view()[i]).handle_spec()
            == pre.entries_view()[i].handle_spec(),
        entries_ok(post.phase_spec(), post.entries_view()),
    ensures
        post.wf(),
{
    let es1 = pre.entries_view();
    let es2 = post.entries_view();
    assert forall|i: int, j: int| 0 <= i < j < es2.len()
        implies (#[trigger] es2[i]).handle_spec() != (#[trigger] es2[j]).handle_spec() by {
        assert(es1[i].handle_spec() != es1[j].handle_spec());
    }
    lemma_seq_knows_same_handles(es1, es2, pre.nucleus_spec());
    lemma_seq_knows_same_handles(es1, es2, pre.input_spec());
    lemma_seq_knows_same_handles(es1, es2, pre.output_spec());
    assert forall|k: int| 0 <= k < post.connections_view().len()
        implies seq_knows(es2, (#[trigger] post.connections_view()[k]).input) && seq_knows(
            es2,
            post.connections_view()[k].output,
        ) by {
        assert(seq_knows(es1, pre.connections_view()[k].input));
        assert(seq_knows(es1, pre.connections_view()[k].output));
        lemma_seq_knows_same_handles(es1, es2, pre.connections_view()[k].input);
        lemma_seq_knows_same_handles(es1, es2, pre.connections_view()[k].output);
    }
}

/// A declared directed edge: messages flow from the `input` end to the
/// `output` end, under the given connection role.
pub struct Connection<Y> {
    /// The sending end of the edge.
    pub input: Handle,
    /// The receiving end of the edge.
    pub output: Handle,
    /// The kind of connection.
    pub role: Y,
}

/// Where the routing algorithm sends one en-route payload.
pub enum Route {
    /// The destination is a child of this organelle: deliver locally,
    /// presenting the message as coming from `apparent`.
    Local {
        /// Index of the destination child in the registry.
        index: usize,
        /// The source the recipient observes.
        apparent: Handle,
    },
    /// The destination is not known here: forward to the parent,
    /// presenting the message as coming from `apparent`.
    Escalate {
        /// The source the parent observes.
        apparent: Handle,
    },
}

/// How a driver-level run ended.
#[derive(Clone, Copy, Debug, PartialEq, Eq, Structural)]
pub enum RunOutcome {
    /// A `Stop` was observed; every component was wound down.
    Stopped,
    /// The relay went quiet with no stop observed: nothing left to do.
    Idle,
    /// The fuel bound was reached before the network went quiet.
    Spent,
}

/// A soma designed to facilitate connections between other somas:
/// the composite orchestrator. It hosts a registry of children — with
/// a distinguished `input` child and a distinguished `output` child,
/// initially the nucleus passed at construction — routes payloads
/// between them, and behaves as a single soma to the outside.
pub struct Organelle<C: Soma> {
    handle: Handle,
    nucleus: Handle,
    input: Handle,
    output: Handle,
    entries: Vec<NodeEntry<C>>,
    connections: Vec<Connection<C::Synapse>>,
    relay: Channel<Action<C::Signal>>,
    phase: Phase,
    name: String,
}

impl<C: Soma> Organelle<C> {
    /// The organelle's own handle, as the outside world sees it; bound
    /// at `Init` to the handle its parent allocated.
    pub closed spec fn my_handle(&self) -> Handle {
        self.handle
    }

    /// The handle of the main (nucleus) child.
    pub closed spec fn nucleus_spec(&self) -> Handle {
        self.nucleus
    }

    /// The handle of the distinguished input child.
    pub closed spec fn input_spec(&self) -> Handle {
        self.input
    }

    /// The handle of the distinguished output child.
    pub closed spec fn output_spec(&self) -> Handle {
        self.output
    }

    /// The organelle's own protocol phase.
    pub closed spec fn phase_spec(&self) -> Phase {
        self.phase
    }

    /// The organelle's human-readable name.
    pub closed spec fn name_spec(&self) -> String {
        self.name
    }

    /// The registry, in insertion order.
    pub closed spec fn entries_view(&self) -> Seq<NodeEntry<C>> {
        self.entries@
    }

    /// The declared connections, in declaration order.
    pub closed spec fn connections_view(&self) -> Seq<Connection<C::Synapse>> {
        self.connections@
    }

    /// The pending actions on the internal relay, oldest first.
    pub closed spec fn relay_view(&self) -> Seq<Action<C::Signal>> {
        self.relay.view()
    }

    /// The internal relay is a well-formed bounded channel.
    pub closed spec fn relay_ok(&self) -> bool {
        self.relay.wf()
    }

    /// How many children the registry holds.
    pub open spec fn entry_count(&self) -> nat {
        self.entries_view().len()
    }

    /// The registry slot at index `i`.
    pub open spec fn entry_at(&self, i: int) -> NodeEntry<C> {
        self.entries_view()[i]
    }

    /// The handle of the child at index `i`.
    pub open spec fn entry_handle(&self, i: int) -> Handle {
        self.entry_at(i).handle_spec()
    }

    /// Whether some child of this organelle is named `h`.
    pub open spec fn knows(&self, h: Handle) -> bool {
        seq_knows(self.entries_view(), h)
    }

    /// No two children share a handle.
    pub open spec fn handles_distinct(&self) -> bool {
        seq_distinct(self.entries_view())
    }

    /// The organelle's internal invariant: the relay is well formed,
    /// child handles are distinct, every child's phase agrees with the
    /// events delivered to it and with the organelle's own phase, the
    /// distinguished children are present, and every declared
    /// connection joins known children.
    pub open spec fn wf(&self) -> bool {
        &&& self.relay_ok()
        &&& self.handles_distinct()
        &&& entries_ok(self.phase_spec(), self.entries_view())
        &&& self.knows(self.nucleus_spec())
        &&& self.knows(self.input_spec())
        &&& self.knows(self.output_spec())
        &&& conns_known(self.entries_view(), self.connections_view())
    }

    /// The organelle has not started yet: wiring is still allowed.
    pub open spec fn pre_start(&self) -> bool {
        !(self.phase_spec() is Running) && !(self.phase_spec() is Terminated)
    }

    /// Every child has wound down.
    pub open spec fn all_done(&self) -> bool {
        forall|i: int| 0 <= i < self.entry_count() ==> (#[trigger] self.entries_view()[i]).done()
    }

    /// The source address that a recipient observes for a payload
    /// en-route from `src` to `dest`: a message from the distinguished
    /// output child that is leaving the organelle is re-addressed to
    /// the organelle itself — external observers must see the
    /// composite, not its interior output node, as the sender — while
    /// any internally routed message keeps its interior source.
    pub open spec fn apparent_source(&self, src: Handle, dest: Handle) -> Handle {
        if src == self.output_spec() && !self.knows(dest) {
            self.my_handle()
        } else {
            src
        }
    }

    /// Create a new organelle around its main (nucleus) soma, which
    /// starts out as both the distinguished input child and the
    /// distinguished output child.
    pub fn new(main: C) -> (org: Organelle<C>)
        requires
            main.inv(),
        ensures
            org.wf(),
            org.phase_spec() is Uninitialized,
            org.entry_count() == 1,
            org.entry_at(0).soma_spec() == Some(main),
            org.entry_at(0).phase_spec() is Uninitialized,
            org.entry_at(0).trace_spec() == Seq::<EventKind>::empty(),
            org.nucleus_spec() == org.entry_handle(0),
            org.input_spec() == org.nucleus_spec(),
            org.output_spec() == org.nucleus_spec(),
            org.connections_view() == Seq::<Connection<C::Synapse>>::empty(),
            org.relay_view() == Seq::<Action<C::Signal>>::empty(),
            org.name_spec()@ == "organelle"@,
    {
        let main_handle = Handle::allocate();
        let entry = NodeEntry {
            handle: main_handle,
            soma: Some(main),
            phase: Phase::Uninitialized,
            trace: Ghost(Seq::empty()),
        };
        let mut entries: Vec<NodeEntry<C>> = Vec::new();
        entries.push(entry);
        let org = Organelle {
            handle: Handle::allocate(),
            nucleus: main_handle,
            input: main_handle,
            output: main_handle,
            entries,
            connections: Vec::new(),
            relay: Channel::new(RELAY_CAPACITY),
            phase: Phase::Uninitialized,
            name: String::from_str("organelle"),
        };
        proof {
            assert(org.entry_handle(0) == main_handle);
        }
        org
    }

    /// Get the main soma's handle.
    pub fn nucleus(&self) -> (h: Handle)
        ensures
            h == self.nucleus_spec(),
    {
        self.nucleus
    }

    /// The organelle's own handle, as the outside world sees it.
    pub fn identity(&self) -> (h: Handle)
        ensures
            h == self.my_handle(),
    {
        self.handle
    }

    /// Give the organelle a human-readable name for topology
    /// descriptions.
    pub fn set_name(&mut self, name: String)
        ensures
            final(self).name_spec() == name,
            final(self).my_handle() == old(self).my_handle(),
            final(self).nucleus_spec() == old(self).nucleus_spec(),
            final(self).input_spec() == old(self).input_spec(),
            final(self).output_spec() == old(self).output_spec(),
            final(self).phase_spec() == old(self).phase_spec(),
            final(self).entries_view() == old(self).entries_view(),
            final(self).connections_view() == old(self).connections_view(),
            final(self).relay_view() == old(self).relay_view(),
            final(self).relay_ok() == old(self).relay_ok(),
            final(self).wf() == old(self).wf(),
    {
        self.name = name;
    }

    /// The organelle's human-readable name.
    pub fn name_string(&self) -> (s: String)
        ensures
            s == self.name_spec(),
    {
        self.name.clone()
    }

    /// How many children the registry holds.
    pub fn soma_count(&self) -> (n: usize)
        ensures
            n == self.entry_count(),
    {
        self.entries.len()
    }

    /// The handle of the child at registry index `i`.
    pub fn handle_at(&self, i: usize) -> (h: Handle)
        requires
            i < self.entry_count(),
        ensures
            h == self.entry_handle(i as int),
    {
        self.entries[i].handle
    }

    /// The soma of the child at registry index `i`, if it is still
    /// alive.
    pub fn soma_ref_at(&self, i: usize) -> (r: &Option<C>)
        requires
            i < self.entry_count(),
        ensures
            *r == self.entries_view()[i as int].soma_spec(),
    {
        &self.entries[i].soma
    }

    /// Find the registry index of a handle.
    fn find_index(&self, h: Handle) -> (r: Option<usize>)
        ensures
            (match r {
                Some(i) => i < self.entry_count() && self.entry_handle(i as int) == h,
                None => !self.knows(h),
            }),
    {
        let mut i: usize = 0;
        while i < self.entries.len()
            invariant
                i <= self.entries.len(),
                forall|k: int| 0 <= k < i ==> (#[trigger] self.entries_view()[k]).handle_spec()
                    != h,
            decreases self.entries.len() - i,
        {
            if self.entries[i].handle == h {
                return Some(i);
            }
            i += 1;
        }
        None
    }

    /// Whether `h` names a child of this organelle.
    pub fn contains(&self, h: Handle) -> (r: bool)
        ensures
            r <==> self.knows(h),
    {
        self.find_index(h).is_some()
    }

    /// Add a soma to the organelle, before it starts. The new child is
    /// registered under a freshly allocated handle, in `Uninitialized`
    /// phase with nothing delivered yet; everything else is unchanged.
    /// In the negligible case that the fresh random handle collides
    /// with an existing child, nothing is changed and the collision is
    /// reported as a fault.
    pub fn add_soma(&mut self, soma: C) -> (r: Result<Handle, Fault>)
        requires
            old(self).wf(),
            old(self).pre_start(),
            soma.inv(),
        ensures
            final(self).wf(),
            final(self).phase_spec() == old(self).phase_spec(),
            final(self).my_handle() == old(self).my_handle(),
            final(self).nucleus_spec() == old(self).nucleus_spec(),
            final(self).input_spec() == old(self).input_spec(),
            final(self).output_spec() == old(self).output_spec(),
            final(self).connections_view() == old(self).connections_view(),
            final(self).relay_view() == old(self).relay_view(),
            (match r {
                Ok(h) => {
                    &&& !old(self).knows(h)
                    &&& final(self).knows(h)
                    &&& final(self).entry_count() == old(self).entry_count() + 1
                    &&& (forall|i: int|
                        0 <= i < old(self).entry_count() ==> #[trigger] final(self).entry_at(i)
                            == old(self).entry_at(i))
                    &&& final(self).entry_handle(old(self).entry_count() as int) == h
                    &&& final(self).entry_at(old(self).entry_count() as int).soma_spec()
                        == Some(soma)
                    &&& final(self).entry_at(old(self).entry_count() as int).phase_spec()
                        is Uninitialized
                    &&& final(self).entry_at(old(self).entry_count() as int).trace_spec()
                        == Seq::<EventKind>::empty()
                },
                Err(_) => *final(self) == *old(self),
            }),
    {
        let h = Handle::allocate();
        match self.register(h, soma) {
            Ok(_) => Ok(h),
            Err(f) => Err(f),
        }
    }

    /// Register a soma under an explicitly chosen handle, before the
    /// organelle starts: what `add_soma` does once the random draw is
    /// made. Succeeds, extending the registry by exactly this child,
    /// if and only if the handle is not already taken.
    pub fn register(&mut self, h: Handle, soma: C) -> (r: Result<(), Fault>)
        requires
            old(self).wf(),
            old(self).pre_start(),
            soma.inv(),
        ensures
            final(self).wf(),
            final(self).phase_spec() == old(self).phase_spec(),
            final(self).my_handle() == old(self).my_handle(),
            final(self).nucleus_spec() == old(self).nucleus_spec(),
            final(self).input_spec() == old(self).input_spec(),
            final(self).output_spec() == old(self).output_spec(),
            final(self).connections_view() == old(self).connections_view(),
            final(self).relay_view() == old(self).relay_view(),
            r is Err <==> old(self).knows(h),
            (match r {
                Ok(_) => {
                    &&& final(self).knows(h)
                    &&& final(self).entry_count() == old(self).entry_count() + 1
                    &&& (forall|i: int|
                        0 <= i < old(self).entry_count() ==> #[trigger] final(self).entry_at(i)
                            == old(self).entry_at(i))
                    &&& final(self).entry_handle(old(self).entry_count() as int) == h
                    &&& final(self).entry_at(old(self).entry_count() as int).soma_spec()
                        == Some(soma)
                    &&& final(self).entry_at(old(self).entry_count() as int).phase_spec()
                        is Uninitialized
                    &&& final(self).entry_at(old(self).entry_count() as int).trace_spec()
                        == Seq::<EventKind>::empty()
                },
                Err(f) => *final(self) == *old(self) && (match f {
                    Fault::Custom(s) => s@ == "handle is already taken"@,
                    _ => false,
                }),
            }),
    {
        if self.contains(h) {
            return Err(Fault::Custom(String::from_str("handle is already taken")));
        }
        let entry = NodeEntry {
            handle: h,
            soma: Some(soma),
            phase: Phase::Uninitialized,
            trace: Ghost(Seq::empty()),
        };
        self.entries.push(entry);
        proof {
            let n = old(self).entry_count() as int;
            let es = old(self).entries_view();
            assert(self.entries_view() == es.push(entry));
            lemma_seq_distinct_push(es, entry);
            lemma_conns_known_push(es, old(self).connections_view(), entry);
            lemma_seq_knows_push(es, entry, h);
            lemma_seq_knows_push(es, entry, old(self).nucleus_spec());
            lemma_seq_knows_push(es, entry, old(self).input_spec());
            lemma_seq_knows_push(es, entry, old(self).output_spec());
            assert(run_phases(Seq::<EventKind>::empty()) == Some(Phase::Uninitialized));
            assert(entry.consistent());
            assert forall|i: int| 0 <= i < self.entry_count() implies (#[trigger] self.entries_view()[i]).consistent()
                && entry_phase_ok(self.phase_spec(), self.entries_view()[i]) by {
                if i < n {
                    assert(self.entries_view()[i] == es[i]);
                } else {
                    assert(self.entries_view()[i] == entry);
                }
            }
            assert(self.entry_handle(n) == h);
        }
        Ok(())
    }

    /// Connect two somas together using the specified role, before the
    /// organelle starts: declares the directed edge `input -> output`.
    /// Fails fast, changing nothing, if either end is unknown here.
    pub fn connect(&mut self, input: Handle, output: Handle, role: C::Synapse) -> (r: Result<
        (),
        Fault,
    >)
        requires
            old(self).wf(),
            old(self).pre_start(),
        ensures
            final(self).wf(),
            final(self).phase_spec() == old(self).phase_spec(),
            final(self).my_handle() == old(self).my_handle(),
            final(self).nucleus_spec() == old(self).nucleus_spec(),
            final(self).input_spec() == old(self).input_spec(),
            final(self).output_spec() == old(self).output_spec(),
            final(self).entries_view() == old(self).entries_view(),
            final(self).relay_view() == old(self).relay_view(),
            (match r {
                Ok(_) => {
                    &&& old(self).knows(input)
                    &&& old(self).knows(output)
                    &&& final(self).connections_view() == old(self).connections_view().push(
                        Connection { input, output, role },
                    )
                },
                Err(f) => {
                    &&& *final(self) == *old(self)
                    &&& !(old(self).knows(input) && old(self).knows(output))
                    &&& (match f {
                        Fault::UnknownHandle(h) => h == input || h == output,
                        _ => false,
                    })
                },
            }),
    {
        if !self.contains(input) {
            return Err(Fault::UnknownHandle(input));
        }
        if !self.contains(output) {
            return Err(Fault::UnknownHandle(output));
        }
        self.connections.push(Connection { input, output, role });
        Ok(())
    }

    /// Choose which known child stands as the distinguished input
    /// child: the receiver of what enters the organelle.
    pub fn set_input(&mut self, h: Handle) -> (r: Result<(), Fault>)
        requires
            old(self).wf(),
            old(self).pre_start(),
        ensures
            final(self).wf(),
            final(self).my_handle() == old(self).my_handle(),
            final(self).nucleus_spec() == old(self).nucleus_spec(),
            final(self).output_spec() == old(self).output_spec(),
            final(self).phase_spec() == old(self).phase_spec(),
            final(self).entries_view() == old(self).entries_view(),
            final(self).connections_view() == old(self).connections_view(),
            final(self).relay_view() == old(self).relay_view(),
            (match r {
                Ok(_) => old(self).knows(h) && final(self).input_spec() == h,
                Err(f) => *final(self) == *old(self) && !old(self).knows(h) && f
                    == Fault::UnknownHandle(h),
            }),
    {
        if self.contains(h) {
            self.input = h;
            Ok(())
        } else {
            Err(Fault::UnknownHandle(h))
        }
    }

    /// Choose which known child stands as the distinguished output
    /// child: the child whose outbound messages are re-addressed to
    /// the organelle when they leave it.
    pub fn set_output(&mut self, h: Handle) -> (r: Result<(), Fault>)
        requires
            old(self).wf(),
            old(self).pre_start(),
        ensures
            final(self).wf(),
            final(self).my_handle() == old(self).my_handle(),
            final(self).nucleus_spec() == old(self).nucleus_spec(),
            final(self).input_spec() == old(self).input_spec(),
            final(self).phase_spec() == old(self).phase_spec(),
            final(self).entries_view() == old(self).entries_view(),
            final(self).connections_view() == old(self).connections_view(),
            final(self).relay_view() == old(self).relay_view(),
            (match r {
                Ok(_) => old(self).knows(h) && final(self).output_spec() == h,
                Err(f) => *final(self) == *old(self) && !old(self).knows(h) && f
                    == Fault::UnknownHandle(h),
            }),
    {
        if self.contains(h) {
            self.output = h;
            Ok(())
        } else {
            Err(Fault::UnknownHandle(h))
        }
    }

    /// Enqueue a batch of actions onto the internal relay, in order.
    fn pump(&mut self, acts: Vec<Action<C::Signal>>)
        requires
            old(self).relay_ok(),
        ensures
            final(self).relay_ok(),
            final(self).relay_view() == old(self).relay_view() + acts@,
            final(self).my_handle() == old(self).my_handle(),
            final(self).nucleus_spec() == old(self).nucleus_spec(),
            final(self).input_spec() == old(self).input_spec(),
            final(self).output_spec() == old(self).output_spec(),
            final(self).phase_spec() == old(self).phase_spec(),
            final(self).entries_view() == old(self).entries_view(),
            final(self).connections_view() == old(self).connections_view(),
    {
        let ghost all = acts@;
        let mut rest = acts;
        while rest.len() > 0
            invariant
                old(self).relay_ok(),
                self.relay_ok(),
                all.len() >= rest.len(),
                rest@ == all.subrange(all.len() - rest.len(), all.len() as int),
                self.relay_view() == old(self).relay_view() + all.take(all.len() - rest.len()),
                self.my_handle() == old(self).my_handle(),
                self.nucleus_spec() == old(self).nucleus_spec(),
                self.input_spec() == old(self).input_spec(),
                self.output_spec() == old(self).output_spec(),
                self.phase_spec() == old(self).phase_spec(),
                self.entries_view() == old(self).entries_view(),
                self.connections_view() == old(self).connections_view(),
            decreases rest.len(),
        {
            let a = rest.remove(0);
            proof {
                assert(a == all[all.len() - rest.len() - 1]);
            }
            self.relay.send(a);
            proof {
                assert(self.relay_view() =~= old(self).relay_view() + all.take(
                    all.len() - rest.len(),
                ));
            }
        }
        proof {
            assert(all.take(all.len() as int) =~= all);
        }
    }

    /// Deliver `Init` — with a fresh effector bound to the child's own
    /// handle — to every registered child that has not been
    /// initialized yet. A failing child is dropped and its failure is
    /// queued on the relay as an escalation.
    fn init_entries(&mut self)
        requires
            old(self).relay_ok(),
            forall|i: int| 0 <= i < old(self).entry_count() ==> (#[trigger] old(
                self,
            ).entries_view()[i]).consistent() && old(self).entries_view()[i].inv_ok(),
        ensures
            final(self).relay_ok(),
            old(self).relay_view().is_prefix_of(final(self).relay_view()),
            final(self).my_handle() == old(self).my_handle(),
            final(self).nucleus_spec() == old(self).nucleus_spec(),
            final(self).input_spec() == old(self).input_spec(),
            final(self).output_spec() == old(self).output_spec(),
            final(self).phase_spec() == old(self).phase_spec(),
            final(self).connections_view() == old(self).connections_view(),
            final(self).entry_count() == old(self).entry_count(),
            forall|i: int| 0 <= i < old(self).entry_count() ==> inited_from(
                old(self).entries_view()[i],
                #[trigger] final(self).entries_view()[i],
            ),
    {
        let n = self.entries.len();
        let mut i: usize = 0;
        while i < n
            invariant
                n == self.entries.len(),
                n == old(self).entry_count(),
                i <= n,
                forall|k: int| 0 <= k < old(self).entry_count() ==> (#[trigger] old(
                    self,
                ).entries_view()[k]).consistent() && old(self).entries_view()[k].inv_ok(),
                self.relay_ok(),
                old(self).relay_view().is_prefix_of(self.relay_view()),
                self.my_handle() == old(self).my_handle(),
                self.nucleus_spec() == old(self).nucleus_spec(),
                self.input_spec() == old(self).input_spec(),
                self.output_spec() == old(self).output_spec(),
                self.phase_spec() == old(self).phase_spec(),
                self.connections_view() == old(self).connections_view(),
                forall|k: int| 0 <= k < i ==> inited_from(
                    old(self).entries_view()[k],
                    #[trigger] self.entries_view()[k],
                ),
                forall|k: int| i <= k < n ==> #[trigger] self.entries_view()[k] == old(
                    self,
                ).entries_view()[k],
            decreases n - i,
        {
            let ghost before = self.entries_view();
            let entry = self.entries.remove(i);
            let pending = entry.soma.is_some() && match entry.phase {
                Phase::Uninitialized => true,
                _ => false,
            };
            if pending {
                let fx: Effector<C::Signal> = Effector::new(entry.handle);
                let (e2, res) = deliver(entry, Impulse::Init(fx));
                self.entries.insert(i, e2);
                proof {
                    assert(self.entries_view() =~= before.update(i as int, e2));
                }
                match res {
                    Ok(acts) => self.pump(acts),
                    Err(e) => {
                        let mut escalation: Vec<Action<C::Signal>> = Vec::new();
                        escalation.push(Action::Error(e.chain()));
                        self.pump(escalation);
                    },
                }
            } else {
                self.entries.insert(i, entry);
                proof {
                    assert(self.entries_view() =~= before);
                }
            }
            i += 1;
        }
    }

    /// Deliver one impulse to the child at registry index `i`. The
    /// actions the child emits are queued on the relay; if the child's
    /// transition fails, the child is dropped and the chained failure
    /// is queued on the relay as an escalation.
    fn deliver_and_pump(&mut self, i: usize, imp: Impulse<C::Signal, C::Synapse>)
        requires
            old(self).relay_ok(),
            i < old(self).entry_count(),
            old(self).entries_view()[i as int].consistent(),
            old(self).entries_view()[i as int].inv_ok(),
            old(self).entries_view()[i as int].soma_spec() is Some ==> phase_step(
                old(self).entries_view()[i as int].phase_spec(),
                imp.kind(),
            ) is Some,
        ensures
            final(self).relay_ok(),
            old(self).relay_view().is_prefix_of(final(self).relay_view()),
            final(self).my_handle() == old(self).my_handle(),
            final(self).nucleus_spec() == old(self).nucleus_spec(),
            final(self).input_spec() == old(self).input_spec(),
            final(self).output_spec() == old(self).output_spec(),
            final(self).phase_spec() == old(self).phase_spec(),
            final(self).connections_view() == old(self).connections_view(),
            final(self).entry_count() == old(self).entry_count(),
            forall|k: int| 0 <= k < old(self).entry_count() && k != i ==> #[trigger] final(self).entries_view()[k] == old(self).entries_view()[k],
            ({
                let o = old(self).entries_view()[i as int];
                let e = final(self).entries_view()[i as int];
                &&& e.handle_spec() == o.handle_spec()
                &&& e.consistent()
                &&& e.inv_ok()
                &&& (o.soma_spec() is None ==> e == o)
                &&& (o.soma_spec() is Some ==> e.phase_spec() == phase_step(
                    o.phase_spec(),
                    imp.kind(),
                ).unwrap() && e.trace_spec() == o.trace_spec().push(imp.kind()))
                &&& (imp.kind().is_terminal() ==> e.done())
            }),
    {
        let ghost before = self.entries_view();
        let entry = self.entries.remove(i);
        let (e2, res) = deliver(entry, imp);
        self.entries.insert(i, e2);
        proof {
            assert(self.entries_view() =~= before.update(i as int, e2));
        }
        match res {
            Ok(acts) => self.pump(acts),
            Err(e) => {
                let mut escalation: Vec<Action<C::Signal>> = Vec::new();
                escalation.push(Action::Error(e.chain()));
                self.pump(escalation);
            },
        }
    }

    /// Apply every declared connection as wiring notifications: the
    /// sending end observes `AddOutput` with the receiving end's
    /// handle, the receiving end observes `AddInput` with the sending
    /// end's handle, each under the connection's role.
    fn wire_connections(&mut self)
        requires
            old(self).relay_ok(),
            conns_known(old(self).entries_view(), old(self).connections_view()),
            forall|i: int| 0 <= i < old(self).entry_count() ==> wirable(
                #[trigger] old(self).entries_view()[i],
            ),
        ensures
            final(self).relay_ok(),
            old(self).relay_view().is_prefix_of(final(self).relay_view()),
            final(self).my_handle() == old(self).my_handle(),
            final(self).nucleus_spec() == old(self).nucleus_spec(),
            final(self).input_spec() == old(self).input_spec(),
            final(self).output_spec() == old(self).output_spec(),
            final(self).phase_spec() == old(self).phase_spec(),
            final(self).connections_view() == old(self).connections_view(),
            final(self).entry_count() == old(self).entry_count(),
            forall|i: int| 0 <= i < old(self).entry_count() ==> (#[trigger] final(self).entries_view()[i]).handle_spec() == old(self).entries_view()[i].handle_spec(),
            forall|i: int| 0 <= i < old(self).entry_count() ==> wirable(
                #[trigger] final(self).entries_view()[i],
            ),
            forall|i: int| 0 <= i < old(self).entry_count() ==> (#[trigger] old(self).entries_view()[i]).trace_spec().is_prefix_of(
                final(self).entries_view()[i].trace_spec(),
            ),
    {
        let m = self.connections.len();
        let mut k: usize = 0;
        while k < m
            invariant
                m == self.connections.len(),
                k <= m,
                conns_known(old(self).entries_view(), old(self).connections_view()),
                self.relay_ok(),
                old(self).relay_view().is_prefix_of(self.relay_view()),
                self.my_handle() == old(self).my_handle(),
                self.nucleus_spec() == old(self).nucleus_spec(),
                self.input_spec() == old(self).input_spec(),
                self.output_spec() == old(self).output_spec(),
                self.phase_spec() == old(self).phase_spec(),
                self.connections_view() == old(self).connections_view(),
                self.entry_count() == old(self).entry_count(),
                forall|i: int| 0 <= i < old(self).entry_count() ==> (#[trigger] self.entries_view()[i]).handle_spec()
                    == old(self).entries_view()[i].handle_spec(),
                forall|i: int| 0 <= i < old(self).entry_count() ==> wirable(
                    #[trigger] self.entries_view()[i],
                ),
                forall|i: int| 0 <= i < old(self).entry_count() ==> (#[trigger] old(self).entries_view()[i]).trace_spec().is_prefix_of(
                    self.entries_view()[i].trace_spec(),
                ),
            decreases m - k,
        {
            let cin = self.connections[k].input;
            let cout = self.connections[k].output;
            let role = self.connections[k].role;
            proof {
                assert(seq_knows(old(self).entries_view(), cin));
                assert(seq_knows(old(self).entries_view(), cout));
                lemma_seq_knows_same_handles(old(self).entries_view(), self.entries_view(), cin);
                lemma_seq_knows_same_handles(old(self).entries_view(), self.entries_view(), cout);
            }
            let idx_in = match self.find_index(cin) {
                Some(i) => i,
                None => vstd::pervasive::unreached(),
            };
            self.deliver_and_pump(idx_in, Impulse::AddOutput(cout, role));
            proof {
                lemma_seq_knows_same_handles(old(self).entries_view(), self.entries_view(), cout);
            }
            let idx_out = match self.find_index(cout) {
                Some(i) => i,
                None => vstd::pervasive::unreached(),
            };
            let ghost mid2 = *self;
            self.deliver_and_pump(idx_out, Impulse::AddInput(cin, role));
            proof {
                assert forall|i: int| 0 <= i < old(self).entry_count() implies (#[trigger] old(
                    self,
                ).entries_view()[i]).trace_spec().is_prefix_of(
                    self.entries_view()[i].trace_spec(),
                ) by {
                    assert(mid2.entries_view()[i].trace_spec().is_prefix_of(
                        self.entries_view()[i].trace_spec(),
                    ));
                    lemma_prefix_trans(
                        old(self).entries_view()[i].trace_spec(),
                        mid2.entries_view()[i].trace_spec(),
                        self.entries_view()[i].trace_spec(),
                    );
                }
            }
            k += 1;
        }
    }

    /// Deliver `Start` to every child exactly once; the children's
    /// first outbound messages are queued on the relay.
    fn start_entries(&mut self)
        requires
            old(self).relay_ok(),
            forall|i: int| 0 <= i < old(self).entry_count() ==> wirable(
                #[trigger] old(self).entries_view()[i],
            ),
        ensures
            final(self).relay_ok(),
            old(self).relay_view().is_prefix_of(final(self).relay_view()),
            final(self).my_handle() == old(self).my_handle(),
            final(self).nucleus_spec() == old(self).nucleus_spec(),
            final(self).input_spec() == old(self).input_spec(),
            final(self).output_spec() == old(self).output_spec(),
            final(self).phase_spec() == old(self).phase_spec(),
            final(self).connections_view() == old(self).connections_view(),
            final(self).entry_count() == old(self).entry_count(),
            forall|i: int| 0 <= i < old(self).entry_count() ==> (#[trigger] final(self).entries_view()[i]).handle_spec() == old(self).entries_view()[i].handle_spec(),
            forall|i: int| 0 <= i < old(self).entry_count() ==> started(
                #[trigger] final(self).entries_view()[i],
            ),
            forall|i: int| 0 <= i < old(self).entry_count() ==> (#[trigger] old(self).entries_view()[i]).trace_spec().is_prefix_of(
                final(self).entries_view()[i].trace_spec(),
            ),
    {
        let n = self.entries.len();
        let mut i: usize = 0;
        while i < n
            invariant
                n == self.entries.len(),
                n == old(self).entry_count(),
                i <= n,
                self.relay_ok(),
                old(self).relay_view().is_prefix_of(self.relay_view()),
                self.my_handle() == old(self).my_handle(),
                self.nucleus_spec() == old(self).nucleus_spec(),
                self.input_spec() == old(self).input_spec(),
                self.output_spec() == old(self).output_spec(),
                self.phase_spec() == old(self).phase_spec(),
                self.connections_view() == old(self).connections_view(),
                forall|k: int| 0 <= k < n ==> (#[trigger] self.entries_view()[k]).handle_spec()
                    == old(self).entries_view()[k].handle_spec(),
                forall|k: int| 0 <= k < i ==> started(#[trigger] self.entries_view()[k]),
                forall|k: int| i <= k < n ==> wirable(#[trigger] self.entries_view()[k]),
                forall|k: int| 0 <= k < n ==> (#[trigger] old(self).entries_view()[k]).trace_spec().is_prefix_of(
                    self.entries_view()[k].trace_spec(),
                ),
            decreases n - i,
        {
            let live = self.entries[i].soma.is_some();
            if live {
                let ghost mid = *self;
                self.deliver_and_pump(i, Impulse::Start);
                proof {
                    assert forall|k: int| 0 <= k < n implies (#[trigger] old(self).entries_view()[k]).trace_spec().is_prefix_of(
                        self.entries_view()[k].trace_spec(),
                    ) by {
                        assert(mid.entries_view()[k].trace_spec().is_prefix_of(
                            self.entries_view()[k].trace_spec(),
                        ));
                        lemma_prefix_trans(
                            old(self).entries_view()[k].trace_spec(),
                            mid.entries_view()[k].trace_spec(),
                            self.entries_view()[k].trace_spec(),
                        );
                    }
                }
            }
            i += 1;
        }
    }

    /// Propagate termination: deliver `Stop` (or `Error` with the
    /// given cause) to every child that has been initialized and has
    /// not already terminated, exactly once each. Whatever a child
    /// emits while winding down is dropped — terminal notifications
    /// are fire-and-forget — and a failure during wind-down is
    /// swallowed. Afterwards every child is done.
    fn terminate_entries(&mut self, cause: Option<Fault>)
        requires
            forall|i: int| 0 <= i < old(self).entry_count() ==> (#[trigger] old(
                self,
            ).entries_view()[i]).consistent() && old(self).entries_view()[i].inv_ok() && (old(
                self,
            ).entries_view()[i].soma_spec() is Some ==> !(old(self).entries_view()[i].phase_spec()
                is Terminated)),
        ensures
            final(self).relay_ok() == old(self).relay_ok(),
            final(self).relay_view() == old(self).relay_view(),
            final(self).my_handle() == old(self).my_handle(),
            final(self).nucleus_spec() == old(self).nucleus_spec(),
            final(self).input_spec() == old(self).input_spec(),
            final(self).output_spec() == old(self).output_spec(),
            final(self).phase_spec() == old(self).phase_spec(),
            final(self).connections_view() == old(self).connections_view(),
            final(self).entry_count() == old(self).entry_count(),
            forall|i: int| 0 <= i < old(self).entry_count() ==> (#[trigger] final(self).entries_view()[i]).handle_spec()
                == old(self).entries_view()[i].handle_spec(),
            forall|i: int| 0 <= i < old(self).entry_count() ==> (#[trigger] final(self).entries_view()[i]).done()
                && final(self).entries_view()[i].consistent() && final(self).entries_view()[i].inv_ok(),
            forall|i: int| 0 <= i < old(self).entry_count() ==> (#[trigger] old(self).entries_view()[i]).trace_spec().is_prefix_of(
                final(self).entries_view()[i].trace_spec(),
            ),
    {
        let n = self.entries.len();
        let mut i: usize = 0;
        while i < n
            invariant
                n == self.entries.len(),
                n == old(self).entry_count(),
                i <= n,
                forall|k: int| 0 <= k < n ==> (#[trigger] old(self).entries_view()[k]).trace_spec().is_prefix_of(
                    self.entries_view()[k].trace_spec(),
                ),
                forall|k: int| 0 <= k < old(self).entry_count() ==> (#[trigger] old(
                    self,
                ).entries_view()[k]).consistent() && old(self).entries_view()[k].inv_ok() && (old(
                    self,
                ).entries_view()[k].soma_spec() is Some ==> !(old(self).entries_view()[k].phase_spec()
                    is Terminated)),
                self.relay_ok() == old(self).relay_ok(),
                self.relay_view() == old(self).relay_view(),
                self.my_handle() == old(self).my_handle(),
                self.nucleus_spec() == old(self).nucleus_spec(),
                self.input_spec() == old(self).input_spec(),
                self.output_spec() == old(self).output_spec(),
                self.phase_spec() == old(self).phase_spec(),
                self.connections_view() == old(self).connections_view(),
                forall|k: int| 0 <= k < n ==> (#[trigger] self.entries_view()[k]).handle_spec()
                    == old(self).entries_view()[k].handle_spec(),
                forall|k: int| 0 <= k < i ==> (#[trigger] self.entries_view()[k]).done()
                    && self.entries_view()[k].consistent() && self.entries_view()[k].inv_ok(),
                forall|k: int| i <= k < n ==> #[trigger] self.entries_view()[k] == old(
                    self,
                ).entries_view()[k],
            decreases n - i,
        {
            let ghost before = self.entries_view();
            let entry = self.entries.remove(i);
            let deliverable = entry.soma.is_some() && match entry.phase {
                Phase::Initialized => true,
                Phase::Wiring => true,
                Phase::Running => true,
                _ => false,
            };
            if deliverable {
                let imp: Impulse<C::Signal, C::Synapse> = match &cause {
                    None => Impulse::Stop,
                    Some(f) => Impulse::Error(f.duplicate()),
                };
                let (e2, _dropped) = deliver(entry, imp);
                self.entries.insert(i, e2);
                proof {
                    assert(self.entries_view() =~= before.update(i as int, e2));
                }
            } else {
                self.entries.insert(i, entry);
                proof {
                    assert(self.entries_view() =~= before);
                }
            }
            i += 1;
        }
    }

    /// Take every pending action off the relay, in order.
    fn drain_remaining(&mut self) -> (pending: Vec<Action<C::Signal>>)
        requires
            old(self).relay_ok(),
        ensures
            final(self).relay_ok(),
            final(self).relay_view().len() == 0,
            pending@ == old(self).relay_view(),
            final(self).my_handle() == old(self).my_handle(),
            final(self).nucleus_spec() == old(self).nucleus_spec(),
            final(self).input_spec() == old(self).input_spec(),
            final(self).output_spec() == old(self).output_spec(),
            final(self).phase_spec() == old(self).phase_spec(),
            final(self).entries_view() == old(self).entries_view(),
            final(self).connections_view() == old(self).connections_view(),
    {
        let mut pending: Vec<Action<C::Signal>> = Vec::new();
        loop
            invariant
                self.relay_ok(),
                pending@ + self.relay_view() == old(self).relay_view(),
                self.my_handle() == old(self).my_handle(),
                self.nucleus_spec() == old(self).nucleus_spec(),
                self.input_spec() == old(self).input_spec(),
                self.output_spec() == old(self).output_spec(),
                self.phase_spec() == old(self).phase_spec(),
                self.entries_view() == old(self).entries_view(),
                self.connections_view() == old(self).connections_view(),
            ensures
                self.relay_view().len() == 0,
                pending@ == old(self).relay_view(),
            decreases self.relay_view().len(),
        {
            match self.relay.recv() {
                None => {
                    proof {
                        assert(pending@ =~= pending@ + self.relay_view());
                    }
                    break ;
                },
                Some(a) => {
                    pending.push(a);
                    proof {
                        assert(pending@ + self.relay_view() =~= old(self).relay_view());
                    }
                },
            }
        }
        pending
    }

    /// Forward a wiring notification from the parent to the child
    /// registered under `target` (the distinguished input or output
    /// child), initializing that child first if it has not been
    /// initialized yet, and move the organelle itself into `Wiring`.
    fn forward_wiring(&mut self, target: Handle, imp: Impulse<C::Signal, C::Synapse>)
        requires
            old(self).wf(),
            old(self).phase_spec() is Initialized || old(self).phase_spec() is Wiring,
            old(self).knows(target),
            imp.kind() == EventKind::Wire,
        ensures
            final(self).wf(),
            final(self).phase_spec() is Wiring,
            final(self).my_handle() == old(self).my_handle(),
            final(self).nucleus_spec() == old(self).nucleus_spec(),
            final(self).input_spec() == old(self).input_spec(),
            final(self).output_spec() == old(self).output_spec(),
            final(self).connections_view() == old(self).connections_view(),
            final(self).entry_count() == old(self).entry_count(),
            forall|i: int| 0 <= i < old(self).entry_count() ==> (#[trigger] final(self).entries_view()[i]).handle_spec()
                == old(self).entries_view()[i].handle_spec(),
            forall|i: int| 0 <= i < old(self).entry_count() ==> (#[trigger] old(self).entries_view()[i]).trace_spec().is_prefix_of(
                final(self).entries_view()[i].trace_spec(),
            ),
            forall|i: int|
                0 <= i < old(self).entry_count() && (#[trigger] final(self).entries_view()[i]).handle_spec()
                    != target ==> final(self).entries_view()[i] == old(self).entries_view()[i],
            exists|i: int|
                0 <= i < final(self).entry_count() && (#[trigger] final(self).entries_view()[i]).handle_spec()
                    == target && (final(self).entries_view()[i].soma_spec() is Some ==> final(self).entries_view()[i].trace_spec().len()
                    > 0 && final(self).entries_view()[i].trace_spec().last() == EventKind::Wire),
    {
        let idx = match self.find_index(target) {
            Some(i) => i,
            None => vstd::pervasive::unreached(),
        };
        let pending = self.entries[idx].soma.is_some() && match self.entries[idx].phase {
            Phase::Uninitialized => true,
            _ => false,
        };
        let ghost pre = *self;
        if pending {
            let child = self.entries[idx].handle;
            let fx: Effector<C::Signal> = Effector::new(child);
            self.deliver_and_pump(idx, Impulse::Init(fx));
        }
        let ghost mid = *self;
        self.deliver_and_pump(idx, imp);
        self.phase = Phase::Wiring;
        proof {
            assert forall|i: int| 0 <= i < old(self).entry_count() implies (#[trigger] old(self).entries_view()[i]).trace_spec().is_prefix_of(
                self.entries_view()[i].trace_spec(),
            ) by {
                assert(pre.entries_view()[i].trace_spec().is_prefix_of(
                    mid.entries_view()[i].trace_spec(),
                ));
                lemma_prefix_trans(
                    old(self).entries_view()[i].trace_spec(),
                    mid.entries_view()[i].trace_spec(),
                    self.entries_view()[i].trace_spec(),
                );
            }
            assert forall|i: int| 0 <= i < self.entry_count()
                implies (#[trigger] self.entries_view()[i]).consistent()
                && self.entries_view()[i].inv_ok() && entry_phase_ok(
                self.phase_spec(),
                self.entries_view()[i],
            ) by {
                if i != idx {
                    assert(self.entries_view()[i] == mid.entries_view()[i]);
                    assert(mid.entries_view()[i] == pre.entries_view()[i]);
                }
            }
            lemma_wf_same_handles(pre, *self);
        }
    }

    /// Process up to `budget` pending relay actions while running.
    /// Payloads bound for a known child are delivered to it as
    /// `Signal` events, under the apparent source the routing
    /// algorithm computes; payloads bound elsewhere, stop requests and
    /// error escalations are collected for the parent — never
    /// swallowed. The second component of the result tells whether the
    /// relay was fully drained; what is left over stays queued, in
    /// order, for the next pass.
    fn drain(&mut self, budget: usize) -> (r: (Vec<Action<C::Signal>>, bool))
        requires
            old(self).wf(),
            old(self).phase_spec() is Running,
        ensures
            final(self).wf(),
            final(self).phase_spec() is Running,
            final(self).my_handle() == old(self).my_handle(),
            final(self).nucleus_spec() == old(self).nucleus_spec(),
            final(self).input_spec() == old(self).input_spec(),
            final(self).output_spec() == old(self).output_spec(),
            final(self).connections_view() == old(self).connections_view(),
            final(self).entry_count() == old(self).entry_count(),
            forall|i: int| 0 <= i < old(self).entry_count() ==> (#[trigger] final(self).entries_view()[i]).handle_spec()
                == old(self).entries_view()[i].handle_spec(),
            r.1 <==> final(self).relay_view().len() == 0,
            forall|j: int|
                0 <= j < r.0@.len() ==> (match #[trigger] r.0@[j] {
                    Action::Payload { src, dest, .. } => !final(self).knows(dest) && (src
                        == final(self).my_handle() || src != final(self).output_spec()),
                    _ => true,
                }),
            old(self).relay_view().len() <= budget ==> (forall|k: int|
                0 <= k < old(self).relay_view().len() && ((#[trigger] old(self).relay_view()[k])
                    is Stop || old(self).relay_view()[k] is Error) ==> exists|j: int|
                    0 <= j < r.0@.len() && r.0@[j] == old(self).relay_view()[k]),
            old(self).relay_view().len() <= budget ==> (forall|k: int|
                0 <= k < old(self).relay_view().len() ==> (match #[trigger] old(self).relay_view()[k] {
                    Action::Payload { src, dest, msg } => !final(self).knows(dest)
                        ==> exists|j: int|
                        0 <= j < r.0@.len() && r.0@[j] == (Action::Payload {
                            src: final(self).apparent_source(src, dest),
                            dest,
                            msg,
                        }),
                    _ => true,
                })),
            forall|i: int| 0 <= i < old(self).entry_count() ==> (#[trigger] old(self).entries_view()[i]).trace_spec().is_prefix_of(
                final(self).entries_view()[i].trace_spec(),
            ),
            old(self).relay_view().len() <= budget ==> (forall|k: int|
                0 <= k < old(self).relay_view().len() ==> (match #[trigger] old(self).relay_view()[k] {
                    Action::Payload { src, dest, msg } => (exists|i: int|
                        0 <= i < old(self).entry_count() && (#[trigger] old(self).entries_view()[i]).handle_spec()
                            == dest && old(self).entries_view()[i].soma_spec() is Some)
                        ==> (exists|i: int|
                        0 <= i < old(self).entry_count() && (#[trigger] final(self).entries_view()[i]).handle_spec()
                            == dest && final(self).entries_view()[i].trace_spec().len() > old(self).entries_view()[i].trace_spec().len()),
                    _ => true,
                })),
    {
        let ghost init = old(self).relay_view();
        let ghost mut processed: Seq<Action<C::Signal>> = Seq::empty();
        let mut out: Vec<Action<C::Signal>> = Vec::new();
        let mut left = budget;
        proof {
            assert(init.skip(0).is_prefix_of(self.relay_view()));
        }
        while left > 0
            invariant
                self.wf(),
                self.phase_spec() is Running,
                self.my_handle() == old(self).my_handle(),
                self.nucleus_spec() == old(self).nucleus_spec(),
                self.input_spec() == old(self).input_spec(),
                self.output_spec() == old(self).output_spec(),
                self.connections_view() == old(self).connections_view(),
                self.entry_count() == old(self).entry_count(),
                forall|i: int| 0 <= i < old(self).entry_count() ==> (#[trigger] self.entries_view()[i]).handle_spec()
                    == old(self).entries_view()[i].handle_spec(),
                init == old(self).relay_view(),
                left <= budget,
                processed.len() == budget - left,
                processed.len() <= init.len() ==> init.skip(
                    processed.len() as int,
                ).is_prefix_of(self.relay_view()),
                forall|k: int| 0 <= k < processed.len() && k < init.len()
                    ==> #[trigger] processed[k] == init[k],
                forall|k: int|
                    0 <= k < processed.len() && ((#[trigger] processed[k]) is Stop
                        || processed[k] is Error) ==> exists|j: int|
                        0 <= j < out@.len() && out@[j] == processed[k],
                forall|k: int|
                    0 <= k < processed.len() ==> (match #[trigger] processed[k] {
                        Action::Payload { src, dest, msg } => !self.knows(dest) ==> exists|j: int|
                            0 <= j < out@.len() && out@[j] == (Action::Payload {
                                src: self.apparent_source(src, dest),
                                dest,
                                msg,
                            }),
                        _ => true,
                    }),
                forall|j: int|
                    0 <= j < out@.len() ==> (match #[trigger] out@[j] {
                        Action::Payload { src, dest, .. } => !self.knows(dest) && (src
                            == self.my_handle() || src != self.output_spec()),
                        _ => true,
                    }),
                forall|i: int| 0 <= i < old(self).entry_count() ==> (#[trigger] old(self).entries_view()[i]).trace_spec().is_prefix_of(
                    self.entries_view()[i].trace_spec(),
                ),
                forall|i: int|
                    0 <= i < old(self).entry_count() ==> ((old(self).entries_view()[i].soma_spec()
                        is Some && (#[trigger] self.entries_view()[i]).soma_spec() is None)
                        ==> self.entries_view()[i].trace_spec().len() > old(self).entries_view()[i].trace_spec().len()),
                forall|k: int|
                    0 <= k < processed.len() ==> (match #[trigger] processed[k] {
                        Action::Payload { src, dest, msg } => (exists|i: int|
                            0 <= i < old(self).entry_count() && (#[trigger] old(self).entries_view()[i]).handle_spec()
                                == dest && old(self).entries_view()[i].soma_spec() is Some)
                            ==> (exists|i: int|
                            0 <= i < old(self).entry_count() && (#[trigger] self.entries_view()[i]).handle_spec()
                                == dest && self.entries_view()[i].trace_spec().len() > old(self).entries_view()[i].trace_spec().len()),
                        _ => true,
                    }),
            decreases left,
        {
            let ghost pre = *self;
            match self.relay.recv() {
                None => {
                    proof {
                        lemma_wf_same_handles(pre, *self);
                        if processed.len() <= init.len() {
                            assert(init.skip(processed.len() as int).len() == 0);
                        }
                        assert forall|k: int|
                            0 <= k < init.len() && ((#[trigger] init[k]) is Stop || init[k]
                                is Error) implies exists|j: int|
                            0 <= j < out@.len() && out@[j] == init[k] by {
                            assert(processed[k] == init[k]);
                        }
                        assert forall|k: int| 0 <= k < init.len() implies (match #[trigger] init[k] {
                            Action::Payload { src, dest, msg } => !self.knows(dest)
                                ==> exists|j: int|
                                0 <= j < out@.len() && out@[j] == (Action::Payload {
                                    src: self.apparent_source(src, dest),
                                    dest,
                                    msg,
                                }),
                            _ => true,
                        }) by {
                            assert(processed[k] == init[k]);
                        }
                        assert forall|k: int| 0 <= k < init.len() implies (match #[trigger] init[k] {
                            Action::Payload { src, dest, msg } => (exists|i: int|
                                0 <= i < old(self).entry_count() && (#[trigger] old(self).entries_view()[i]).handle_spec()
                                    == dest && old(self).entries_view()[i].soma_spec() is Some)
                                ==> (exists|i: int|
                                0 <= i < old(self).entry_count() && (#[trigger] self.entries_view()[i]).handle_spec()
                                    == dest && self.entries_view()[i].trace_spec().len() > old(self).entries_view()[i].trace_spec().len()),
                            _ => true,
                        }) by {
                            assert(processed[k] == init[k]);
                        }
                    }
                    return (out, true);
                },
                Some(action) => {
                    proof {
                        lemma_wf_same_handles(pre, *self);
                        if processed.len() < init.len() {
                            assert(action == init.skip(processed.len() as int)[0]);
                            assert(action == init[processed.len() as int]);
                        }
                        processed = processed.push(action);
                        if processed.len() <= init.len() {
                            assert forall|k: int| 0 <= k < init.skip(processed.len() as int).len()
                                implies #[trigger] init.skip(processed.len() as int)[k]
                                == self.relay_view()[k] by {
                                assert(init.skip((processed.len() - 1) as int)[k + 1] == init.skip(
                                    processed.len() as int,
                                )[k]);
                                assert(pre.relay_view()[k + 1] == self.relay_view()[k]);
                            }
                            assert(init.skip(processed.len() as int).is_prefix_of(
                                self.relay_view(),
                            ));
                        }
                    }
                    match action {
                        Action::Stop => {
                            let ghost prev_out = out@;
                            out.push(Action::Stop);
                            proof {
                                assert(out@[out@.len() - 1] == processed[processed.len() - 1]);
                                lemma_coverage_survives_push(*self, processed, prev_out, out@);
                            }
                        },
                        Action::Error(e) => {
                            let ghost prev_out = out@;
                            out.push(Action::Error(e));
                            proof {
                                assert(out@[out@.len() - 1] == processed[processed.len() - 1]);
                                lemma_coverage_survives_push(*self, processed, prev_out, out@);
                            }
                        },
                        Action::Payload { src, dest, msg } => {
                            match self.route(src, dest) {
                                Route::Escalate { apparent } => {
                                    let ghost prev_out = out@;
                                    out.push(Action::Payload { src: apparent, dest, msg });
                                    proof {
                                        assert(out@[out@.len() - 1] == (Action::Payload {
                                            src: self.apparent_source(src, dest),
                                            dest,
                                            msg,
                                        }));
                                        lemma_coverage_survives_push(
                                            *self,
                                            processed,
                                            prev_out,
                                            out@,
                                        );
                                    }
                                },
                                Route::Local { index, apparent } => {
                                    let ghost mid = *self;
                                    self.deliver_and_pump(index, Impulse::Signal(apparent, msg));
                                    proof {
                                        assert forall|i: int| 0 <= i < self.entry_count()
                                            implies (#[trigger] self.entries_view()[i]).consistent()
                                            && self.entries_view()[i].inv_ok() && entry_phase_ok(
                                            self.phase_spec(),
                                            self.entries_view()[i],
                                        ) by {
                                            if i != index {
                                                assert(self.entries_view()[i]
                                                    == mid.entries_view()[i]);
                                            }
                                        }
                                        assert forall|i: int| 0 <= i < self.entry_count()
                                            implies (#[trigger] self.entries_view()[i]).handle_spec()
                                            == mid.entries_view()[i].handle_spec() by {
                                            if i != index {
                                                assert(self.entries_view()[i]
                                                    == mid.entries_view()[i]);
                                            }
                                        }
                                        lemma_wf_same_handles(mid, *self);
                                        if processed.len() <= init.len() {
                                            assert(init.skip(processed.len() as int).is_prefix_of(
                                                self.relay_view(),
                                            )) by {
                                                assert(mid.relay_view().is_prefix_of(
                                                    self.relay_view(),
                                                ));
                                            }
                                        }
                                        assert forall|j: int| 0 <= j < out@.len()
                                            implies (match #[trigger] out@[j] {
                                            Action::Payload { src, dest, .. } => !self.knows(dest)
                                                && (src == self.my_handle() || src
                                                != self.output_spec()),
                                            _ => true,
                                        }) by {
                                            match out@[j] {
                                                Action::Payload { src: s2, dest: d2, .. } => {
                                                    assert(!mid.knows(d2));
                                                    if self.knows(d2) {
                                                        let i = choose|i: int|
                                                            0 <= i < self.entry_count() && (
                                                            #[trigger] self.entries_view()[i]).handle_spec()
                                                                == d2;
                                                        assert(mid.entries_view()[i].handle_spec()
                                                            == d2);
                                                    }
                                                },
                                                _ => {},
                                            }
                                        }
                                        assert forall|k: int| 0 <= k < processed.len()
                                            implies (match #[trigger] processed[k] {
                                            Action::Payload { src: s3, dest: d3, msg: m3 } => !self.knows(d3)
                                                ==> exists|j: int|
                                                0 <= j < out@.len() && out@[j] == (Action::Payload {
                                                    src: self.apparent_source(s3, d3),
                                                    dest: d3,
                                                    msg: m3,
                                                }),
                                            _ => true,
                                        }) by {
                                            match processed[k] {
                                                Action::Payload { src: s3, dest: d3, msg: m3 } => {
                                                    if !self.knows(d3) {
                                                        // destinations stay known or unknown:
                                                        // the registry's handles are unchanged
                                                        assert(!mid.knows(d3)) by {
                                                            if mid.knows(d3) {
                                                                let i = choose|i: int|
                                                                    0 <= i < mid.entry_count() && (
                                                                    #[trigger] mid.entries_view()[i]).handle_spec()
                                                                        == d3;
                                                                assert(self.entries_view()[i].handle_spec()
                                                                    == d3);
                                                            }
                                                        }
                                                        if k == processed.len() - 1 {
                                                            assert(mid.knows(d3));
                                                        } else {
                                                            let j = choose|j: int|
                                                                0 <= j < out@.len() && out@[j] == (
                                                                Action::Payload {
                                                                    src: mid.apparent_source(
                                                                        s3,
                                                                        d3,
                                                                    ),
                                                                    dest: d3,
                                                                    msg: m3,
                                                                });
                                                            assert(mid.apparent_source(s3, d3)
                                                                == self.apparent_source(s3, d3));
                                                            assert(out@[j] == (Action::Payload {
                                                                src: self.apparent_source(s3, d3),
                                                                dest: d3,
                                                                msg: m3,
                                                            }));
                                                        }
                                                    }
                                                },
                                                _ => {},
                                            }
                                        }
                                    }
                                },
                            }
                        },
                    }
                },
            }
            left -= 1;
        }
        let done = self.relay.is_empty();
        proof {
            assert(processed.len() == budget);
            if init.len() <= budget {
                assert forall|k: int|
                    0 <= k < init.len() && ((#[trigger] init[k]) is Stop || init[k] is Error)
                    implies exists|j: int| 0 <= j < out@.len() && out@[j] == init[k] by {
                    assert(processed[k] == init[k]);
                }
                assert forall|k: int| 0 <= k < init.len() implies (match #[trigger] init[k] {
                    Action::Payload { src, dest, msg } => !self.knows(dest) ==> exists|j: int|
                        0 <= j < out@.len() && out@[j] == (Action::Payload {
                            src: self.apparent_source(src, dest),
                            dest,
                            msg,
                        }),
                    _ => true,
                }) by {
                    assert(processed[k] == init[k]);
                }
                assert forall|k: int| 0 <= k < init.len() implies (match #[trigger] init[k] {
                    Action::Payload { src, dest, msg } => (exists|i: int|
                        0 <= i < old(self).entry_count() && (#[trigger] old(self).entries_view()[i]).handle_spec()
                            == dest && old(self).entries_view()[i].soma_spec() is Some)
                        ==> (exists|i: int|
                        0 <= i < old(self).entry_count() && (#[trigger] self.entries_view()[i]).handle_spec()
                            == dest && self.entries_view()[i].trace_spec().len() > old(self).entries_view()[i].trace_spec().len()),
                    _ => true,
                }) by {
                    assert(processed[k] == init[k]);
                }
            }
        }
        (out, done)
    }

    /// The routing algorithm: decide where a payload en-route from
    /// `src` to `dest` goes, and which source the recipient observes.
    /// A destination known here is delivered locally; anything else is
    /// escalated to the parent. Either way the observed source is
    /// `apparent_source`: re-addressed to the organelle exactly when
    /// the output child sends out of the organelle.
    pub fn route(&self, src: Handle, dest: Handle) -> (r: Route)
        ensures
            (match r {
                Route::Local { index, apparent } => {
                    &&& self.knows(dest)
                    &&& index < self.entry_count()
                    &&& self.entry_handle(index as int) == dest
                    &&& apparent == self.apparent_source(src, dest)
                },
                Route::Escalate { apparent } => {
                    &&& !self.knows(dest)
                    &&& apparent == self.apparent_source(src, dest)
                },
            }),
    {
        match self.find_index(dest) {
            Some(index) => Route::Local { index, apparent: src },
            None => {
                if src == self.output {
                    Route::Escalate { apparent: self.handle }
                } else {
                    Route::Escalate { apparent: src }
                }
            },
        }
    }
}

impl<C: Soma> Organelle<C> {
    /// Convert this organelle into a running network: the driver. The
    /// still-uninitialized children are initialized, the declared
    /// connections are applied as wiring notifications, `Start` is
    /// propagated to every child exactly once, and then up to `fuel`
    /// relay actions are processed in order: a payload bound for a
    /// live child reaches that child — never dropped — while the
    /// registry keeps its identities and children only accumulate
    /// events. The run ends when a stop request
    /// is observed (every child is wound down exactly once, and the
    /// run reports `Stopped`), when an error is escalated or a payload
    /// names an unknown destination (every child is wound down and the
    /// fault surfaces to the caller), when the relay goes quiet
    /// (`Idle`), or when the fuel is spent (`Spent`; the run can be
    /// resumed).
    pub fn run(&mut self, fuel: usize) -> (r: Result<RunOutcome, Fault>)
        requires
            old(self).wf(),
            !(old(self).phase_spec() is Terminated),
        ensures
            final(self).wf(),
            final(self).entry_count() == old(self).entry_count(),
            forall|i: int| 0 <= i < old(self).entry_count() ==> (#[trigger] final(self).entries_view()[i]).handle_spec()
                == old(self).entries_view()[i].handle_spec(),
            forall|i: int| 0 <= i < old(self).entry_count() ==> (#[trigger] old(self).entries_view()[i]).trace_spec().is_prefix_of(
                final(self).entries_view()[i].trace_spec(),
            ),
            final(self).my_handle() == old(self).my_handle(),
            final(self).nucleus_spec() == old(self).nucleus_spec(),
            final(self).input_spec() == old(self).input_spec(),
            final(self).output_spec() == old(self).output_spec(),
            (match r {
                Ok(RunOutcome::Stopped) => final(self).phase_spec() is Terminated && final(self).all_done() && final(self).relay_view().len() == 0,
                Ok(RunOutcome::Idle) => final(self).phase_spec() is Running && final(self).relay_view().len() == 0,
                Ok(RunOutcome::Spent) => final(self).phase_spec() is Running,
                Err(_) => final(self).phase_spec() is Terminated && final(self).all_done(),
            }),
            (old(self).phase_spec() is Running && fuel > 0 && old(self).relay_view().len() > 0)
                ==> (match old(self).relay_view()[0] {
                Action::Payload { src, dest, msg } => (exists|i: int|
                    0 <= i < old(self).entry_count() && (#[trigger] old(self).entries_view()[i]).handle_spec()
                        == dest && old(self).entries_view()[i].soma_spec() is Some) ==> (exists|
                    i: int,
                |
                    0 <= i < final(self).entry_count() && (#[trigger] final(self).entries_view()[i]).handle_spec()
                        == dest && final(self).entries_view()[i].trace_spec().len() > old(self).entries_view()[i].trace_spec().len()),
                _ => true,
            }),
            (old(self).phase_spec() is Running && (r == Result::<RunOutcome, Fault>::Ok(
                RunOutcome::Idle,
            ) || r == Result::<RunOutcome, Fault>::Ok(RunOutcome::Spent))) ==> (forall|k: int|
                0 <= k < old(self).relay_view().len() && k < fuel ==> (match #[trigger] old(self).relay_view()[k] {
                    Action::Payload { src, dest, msg } => (exists|i: int|
                        0 <= i < old(self).entry_count() && (#[trigger] old(self).entries_view()[i]).handle_spec()
                            == dest && old(self).entries_view()[i].soma_spec() is Some)
                        ==> (exists|i: int|
                        0 <= i < old(self).entry_count() && (#[trigger] final(self).entries_view()[i]).handle_spec()
                            == dest && final(self).entries_view()[i].trace_spec().len() > old(self).entries_view()[i].trace_spec().len()),
                    _ => true,
                })),
            fuel > 0 && old(self).relay_view().len() > 0 ==> (match old(self).relay_view()[0] {
                Action::Error(e) => r == Result::<RunOutcome, Fault>::Err(e),
                Action::Stop => r == Result::<RunOutcome, Fault>::Ok(RunOutcome::Stopped) || r is Err,
                Action::Payload { .. } => true,
            }),
            (old(self).phase_spec() is Running && fuel > 0 && old(self).relay_view().len() > 0
                && old(self).relay_view()[0] is Stop) ==> (match spec_first_error(
                old(self).relay_view().drop_first(),
            ) {
                Some(f) => r == Result::<RunOutcome, Fault>::Err(f),
                None => r == Result::<RunOutcome, Fault>::Ok(RunOutcome::Stopped),
            }),
    {
        if match self.phase {
            Phase::Uninitialized => true,
            Phase::Initialized => true,
            Phase::Wiring => true,
            _ => false,
        } {
            let ghost pre = *self;
            self.init_entries();
            proof {
                assert forall|i: int| 0 <= i < self.entry_count() implies wirable(
                    #[trigger] self.entries_view()[i],
                ) by {
                    assert(inited_from(pre.entries_view()[i], self.entries_view()[i]));
                    assert(pre.entries_view()[i].consistent());
                }
                lemma_conns_known_same_handles(
                    pre.entries_view(),
                    self.entries_view(),
                    self.connections_view(),
                );
            }
            self.wire_connections();
            self.start_entries();
            self.phase = Phase::Running;
            proof {
                assert forall|i: int| 0 <= i < self.entry_count()
                    implies (#[trigger] self.entries_view()[i]).consistent()
                    && self.entries_view()[i].inv_ok() && entry_phase_ok(
                    self.phase_spec(),
                    self.entries_view()[i],
                ) by {
                    assert(started(self.entries_view()[i]));
                }
                lemma_wf_same_handles(pre, *self);
            }
        }
        let mut left = fuel;
        let ghost init = old(self).relay_view();
        let ghost mut processed: Seq<Action<C::Signal>> = Seq::empty();
        let ghost mut popped: int = 0;
        while left > 0
            invariant
                self.wf(),
                self.phase_spec() is Running,
                self.entry_count() == old(self).entry_count(),
                forall|i: int| 0 <= i < old(self).entry_count() ==> (#[trigger] self.entries_view()[i]).handle_spec()
                    == old(self).entries_view()[i].handle_spec(),
                forall|i: int| 0 <= i < old(self).entry_count() ==> (#[trigger] old(self).entries_view()[i]).trace_spec().is_prefix_of(
                    self.entries_view()[i].trace_spec(),
                ),
                self.my_handle() == old(self).my_handle(),
                self.nucleus_spec() == old(self).nucleus_spec(),
                self.input_spec() == old(self).input_spec(),
                self.output_spec() == old(self).output_spec(),
                popped >= 0,
                popped == fuel - left,
                init == old(self).relay_view(),
                processed.len() == popped,
                (old(self).phase_spec() is Running && processed.len() <= init.len())
                    ==> init.skip(processed.len() as int).is_prefix_of(self.relay_view()),
                old(self).phase_spec() is Running ==> (forall|k: int|
                    0 <= k < processed.len() && k < init.len() ==> #[trigger] processed[k]
                        == init[k]),
                old(self).phase_spec() is Running ==> (forall|i: int|
                    0 <= i < old(self).entry_count() ==> ((old(self).entries_view()[i].soma_spec()
                        is Some && (#[trigger] self.entries_view()[i]).soma_spec() is None)
                        ==> self.entries_view()[i].trace_spec().len() > old(self).entries_view()[i].trace_spec().len())),
                old(self).phase_spec() is Running ==> (forall|k: int|
                    0 <= k < processed.len() ==> (match #[trigger] processed[k] {
                        Action::Payload { src, dest, msg } => (exists|i: int|
                            0 <= i < old(self).entry_count() && (#[trigger] old(self).entries_view()[i]).handle_spec()
                                == dest && old(self).entries_view()[i].soma_spec() is Some)
                            ==> (exists|i: int|
                            0 <= i < old(self).entry_count() && (#[trigger] self.entries_view()[i]).handle_spec()
                                == dest && self.entries_view()[i].trace_spec().len() > old(self).entries_view()[i].trace_spec().len()),
                        _ => true,
                    })),
                popped == 0 ==> old(self).relay_view().is_prefix_of(self.relay_view()),
                (popped == 0 && old(self).phase_spec() is Running) ==> *self == *old(self),
                popped == 0 ==> left == fuel,
                (popped > 0 && old(self).relay_view().len() > 0) ==> old(self).relay_view()[0]
                    is Payload,
                (popped > 0 && old(self).phase_spec() is Running && old(self).relay_view().len()
                    > 0) ==> (match old(self).relay_view()[0] {
                    Action::Payload { src, dest, msg } => (exists|i: int|
                        0 <= i < old(self).entry_count() && (#[trigger] old(self).entries_view()[i]).handle_spec()
                            == dest && old(self).entries_view()[i].soma_spec() is Some)
                        ==> (exists|i: int|
                        0 <= i < self.entry_count() && (#[trigger] self.entries_view()[i]).handle_spec()
                            == dest && self.entries_view()[i].trace_spec().len() > old(self).entries_view()[i].trace_spec().len()),
                    _ => true,
                }),
            decreases left,
        {
            let ghost pre = *self;
            match self.relay.recv() {
                None => {
                    proof {
                        lemma_wf_same_handles(pre, *self);
                        if old(self).phase_spec() is Running {
                            if processed.len() <= init.len() {
                                assert(init.skip(processed.len() as int).len() == 0);
                            }
                            assert forall|k: int| 0 <= k < init.len() && k < fuel
                                implies (match #[trigger] init[k] {
                                Action::Payload { src, dest, msg } => (exists|i: int|
                                    0 <= i < old(self).entry_count() && (#[trigger] old(self).entries_view()[i]).handle_spec()
                                        == dest && old(self).entries_view()[i].soma_spec()
                                        is Some) ==> (exists|i: int|
                                    0 <= i < old(self).entry_count() && (#[trigger] self.entries_view()[i]).handle_spec()
                                        == dest && self.entries_view()[i].trace_spec().len()
                                        > old(self).entries_view()[i].trace_spec().len()),
                                _ => true,
                            }) by {
                                assert(processed[k] == init[k]);
                            }
                        }
                    }
                    return Ok(RunOutcome::Idle);
                },
                Some(action) => {
                    proof {
                        lemma_wf_same_handles(pre, *self);
                        if popped == 0 && old(self).relay_view().len() > 0 {
                            assert(action == old(self).relay_view()[0]);
                        }
                        if old(self).phase_spec() is Running && processed.len() < init.len() {
                            assert(action == init.skip(processed.len() as int)[0]);
                            assert(action == init[processed.len() as int]);
                        }
                    }
                    let ghost was_first = popped == 0;
                    proof {
                        popped = popped + 1;
                        processed = processed.push(action);
                        if old(self).phase_spec() is Running && processed.len() <= init.len() {
                            assert forall|k: int| 0 <= k < init.skip(processed.len() as int).len()
                                implies #[trigger] init.skip(processed.len() as int)[k]
                                == self.relay_view()[k] by {
                                assert(init.skip((processed.len() - 1) as int)[k + 1] == init.skip(
                                    processed.len() as int,
                                )[k]);
                                assert(pre.relay_view()[k + 1] == self.relay_view()[k]);
                            }
                            assert(init.skip(processed.len() as int).is_prefix_of(
                                self.relay_view(),
                            ));
                        }
                    }
                    match action {
                        Action::Stop => {
                            // an escalated error takes precedence over
                            // a pending stop: scan what is still
                            // queued before winding down gracefully
                            let rest = self.drain_remaining();
                            let ghost at_stop = *self;
                            match first_error(&rest) {
                                Some(f) => {
                                    self.terminate_entries(Some(f.duplicate()));
                                    self.phase = Phase::Terminated;
                                    proof {
                                        lemma_wf_same_handles(at_stop, *self);
                                    }
                                    return Err(f);
                                },
                                None => {
                                    self.terminate_entries(None);
                                    self.phase = Phase::Terminated;
                                    proof {
                                        lemma_wf_same_handles(at_stop, *self);
                                    }
                                    return Ok(RunOutcome::Stopped);
                                },
                            }
                        },
                        Action::Error(e) => {
                            let ghost at_stop = *self;
                            self.terminate_entries(Some(e.duplicate()));
                            self.phase = Phase::Terminated;
                            proof {
                                lemma_wf_same_handles(at_stop, *self);
                            }
                            return Err(e);
                        },
                        Action::Payload { src, dest, msg } => {
                            match self.route(src, dest) {
                                Route::Escalate { apparent: _ } => {
                                    // no parent to escalate to: an
                                    // unknown destination at top level
                                    // is fatal to the whole network
                                    let f = Fault::UnknownHandle(dest);
                                    let ghost at_stop = *self;
                                    self.terminate_entries(Some(f.duplicate()));
                                    self.phase = Phase::Terminated;
                                    proof {
                                        lemma_wf_same_handles(at_stop, *self);
                                    }
                                    return Err(f);
                                },
                                Route::Local { index, apparent } => {
                                    let ghost mid = *self;
                                    self.deliver_and_pump(index, Impulse::Signal(apparent, msg));
                                    proof {
                                        assert forall|i: int| 0 <= i < self.entry_count()
                                            implies (#[trigger] self.entries_view()[i]).consistent()
                                            && self.entries_view()[i].inv_ok() && entry_phase_ok(
                                            self.phase_spec(),
                                            self.entries_view()[i],
                                        ) by {
                                            if i != index {
                                                assert(self.entries_view()[i]
                                                    == mid.entries_view()[i]);
                                            }
                                        }
                                        lemma_wf_same_handles(mid, *self);
                                        assert forall|i: int| 0 <= i < old(self).entry_count()
                                            implies (#[trigger] old(self).entries_view()[i]).trace_spec().is_prefix_of(
                                            self.entries_view()[i].trace_spec(),
                                        ) by {
                                            if i != index as int {
                                                assert(self.entries_view()[i]
                                                    == mid.entries_view()[i]);
                                            }
                                            lemma_prefix_trans(
                                                old(self).entries_view()[i].trace_spec(),
                                                mid.entries_view()[i].trace_spec(),
                                                self.entries_view()[i].trace_spec(),
                                            );
                                        }
                                        if old(self).phase_spec() is Running && processed.len()
                                            <= init.len() {
                                            assert(init.skip(processed.len() as int).is_prefix_of(
                                                self.relay_view(),
                                            )) by {
                                                assert(mid.relay_view().is_prefix_of(
                                                    self.relay_view(),
                                                ));
                                            }
                                        }
                                        if was_first && old(self).phase_spec() is Running
                                            && old(self).relay_view().len() > 0 {
                                            // the head payload was just delivered to the
                                            // child the routing named
                                            if exists|i: int|
                                                0 <= i < old(self).entry_count() && (#[trigger] old(
                                                self,
                                            ).entries_view()[i]).handle_spec() == dest && old(
                                                self,
                                            ).entries_view()[i].soma_spec() is Some {
                                                let i = choose|i: int|
                                                    0 <= i < old(self).entry_count() && (
                                                    #[trigger] old(self).entries_view()[i]).handle_spec()
                                                        == dest && old(self).entries_view()[i].soma_spec()
                                                        is Some;
                                                assert(mid.entries_view() == old(self).entries_view());
                                                assert(mid.entry_handle(i) == dest);
                                                assert(mid.entry_handle(index as int) == dest);
                                                assert(i == index as int);
                                                assert(self.entries_view()[index as int].trace_spec()
                                                    == mid.entries_view()[index as int].trace_spec().push(
                                                    EventKind::Signal,
                                                ));
                                            }
                                        }
                                    }
                                },
                            }
                            proof {
                                if was_first && old(self).relay_view().len() > 0 {
                                    assert(old(self).relay_view()[0] is Payload);
                                }
                            }
                        },
                    }
                },
            }
            left -= 1;
        }
        proof {
            if old(self).phase_spec() is Running {
                assert forall|k: int| 0 <= k < init.len() && k < fuel implies (match #[trigger] init[k] {
                    Action::Payload { src, dest, msg } => (exists|i: int|
                        0 <= i < old(self).entry_count() && (#[trigger] old(self).entries_view()[i]).handle_spec()
                            == dest && old(self).entries_view()[i].soma_spec() is Some)
                        ==> (exists|i: int|
                        0 <= i < old(self).entry_count() && (#[trigger] self.entries_view()[i]).handle_spec()
                            == dest && self.entries_view()[i].trace_spec().len() > old(self).entries_view()[i].trace_spec().len()),
                    _ => true,
                }) by {
                    assert(processed[k] == init[k]);
                }
            }
        }
        Ok(RunOutcome::Spent)
    }

    /// Look at the soma registered under `h`, if it is present and
    /// still alive; a window for callers that drive a network and then
    /// examine what its components became.
    pub fn inspect(&self, h: Handle) -> (r: Option<&C>)
        ensures
            (match r {
                Some(c) => exists|i: int|
                    0 <= i < self.entry_count() && (#[trigger] self.entries_view()[i]).handle_spec()
                        == h && self.entries_view()[i].soma_spec() == Some(*c),
                None => !self.knows(h) || (exists|i: int|
                    0 <= i < self.entry_count() && (#[trigger] self.entries_view()[i]).handle_spec()
                        == h && self.entries_view()[i].soma_spec() is None),
            }),
    {
        match self.find_index(h) {
            Some(i) => {
                proof {
                    assert(self.entries_view()[i as int].handle_spec() == h);
                }
                self.entries[i].soma.as_ref()
            },
            None => None,
        }
    }

    /// The protocol phase of the child registered under `h`.
    pub fn phase_of(&self, h: Handle) -> (r: Option<Phase>)
        ensures
            (match r {
                Some(p) => exists|i: int|
                    0 <= i < self.entry_count() && (#[trigger] self.entries_view()[i]).handle_spec()
                        == h && self.entries_view()[i].phase_spec() == p,
                None => !self.knows(h),
            }),
    {
        match self.find_index(h) {
            Some(i) => Some(self.entries[i].phase),
            None => None,
        }
    }
}

impl<C: Soma> Soma for Organelle<C> {
    type Signal = C::Signal;
    type Synapse = C::Synapse;

    open spec fn inv(&self) -> bool {
        self.wf()
    }

    open spec fn stopped(&self) -> bool {
        self.phase_spec() is Terminated && self.all_done()
    }

    /// React to one impulse from the parent, failing exactly on the
    /// events the protocol does not admit in the current phase. `Init`
    /// binds the organelle's identity and initializes every child;
    /// wiring is forwarded to the distinguished input or output child
    /// and touches no other; `Start` wires the declared connections
    /// and starts every child exactly once; payloads are routed —
    /// delivered to the known destination child, or returned to the
    /// parent re-addressed by the routing algorithm; a terminal event
    /// winds every child down. The registry's identities are
    /// preserved and children only ever accumulate events. Each event
    /// processes at most `DRAIN_BUDGET` relay actions; what is left
    /// over stays queued, in order, for the next event, so queued
    /// stops, errors and escalations are guaranteed to reach the
    /// returned actions only within that bound.
    fn update(self, imp: Impulse<C::Signal, C::Synapse>) -> (r: Result<
        (Self, Vec<Action<C::Signal>>),
        Fault,
    >)
        ensures
            r is Err <==> (phase_step(self.phase_spec(), imp.kind()) is None
                && !imp.kind().is_terminal()),
            (match r {
                Ok(st) => {
                    &&& st.0.wf()
                    &&& st.0.entry_count() == self.entry_count()
                    &&& (forall|i: int|
                        0 <= i < self.entry_count() ==> (#[trigger] st.0.entries_view()[i]).handle_spec()
                            == self.entries_view()[i].handle_spec())
                    &&& st.0.my_handle() == (if imp is Init {
                        st.0.my_handle()
                    } else {
                        self.my_handle()
                    })
                    &&& st.0.nucleus_spec() == self.nucleus_spec()
                    &&& st.0.input_spec() == self.input_spec()
                    &&& st.0.output_spec() == self.output_spec()
                    &&& (match imp {
                        Impulse::Init(fx) => st.0.phase_spec() is Initialized && st.0.my_handle()
                            == fx.owner(),
                        Impulse::AddInput(_, _) => st.0.phase_spec() is Wiring && wired_child(
                            st.0,
                            self.input_spec(),
                        ) && (forall|i: int|
                            0 <= i < self.entry_count() && (#[trigger] st.0.entries_view()[i]).handle_spec()
                                != self.input_spec() ==> st.0.entries_view()[i]
                                == self.entries_view()[i]),
                        Impulse::AddOutput(_, _) => st.0.phase_spec() is Wiring && wired_child(
                            st.0,
                            self.output_spec(),
                        ) && (forall|i: int|
                            0 <= i < self.entry_count() && (#[trigger] st.0.entries_view()[i]).handle_spec()
                                != self.output_spec() ==> st.0.entries_view()[i]
                                == self.entries_view()[i]),
                        Impulse::Start => st.0.phase_spec() is Running,
                        Impulse::Payload(_, _, _) => st.0.phase_spec() is Running,
                        Impulse::Signal(_, _) => st.0.phase_spec() is Running,
                        Impulse::Stop => st.0.phase_spec() is Terminated && st.0.all_done(),
                        Impulse::Error(_) => st.0.phase_spec() is Terminated && st.0.all_done(),
                    })
                    &&& (forall|j: int|
                        0 <= j < st.1@.len() ==> (match #[trigger] st.1@[j] {
                            Action::Payload { src, dest, .. } => !st.0.knows(dest) && (src
                                == st.0.my_handle() || src != st.0.output_spec()),
                            _ => true,
                        }))
                    &&& (((imp is Payload || imp is Signal) && self.phase_spec() is Running
                        && self.relay_view().len() + 1 <= DRAIN_BUDGET) ==> (forall|k: int|
                        0 <= k < self.relay_view().len() && ((#[trigger] self.relay_view()[k])
                            is Stop || self.relay_view()[k] is Error) ==> exists|j: int|
                            0 <= j < st.1@.len() && st.1@[j] == self.relay_view()[k]))
                    &&& (((imp is Payload || imp is Signal) && self.phase_spec() is Running
                        && self.relay_view().len() + 1 <= DRAIN_BUDGET) ==> (forall|k: int|
                        0 <= k < self.relay_view().len() ==> (match #[trigger] self.relay_view()[k] {
                            Action::Payload { src, dest, msg } => !st.0.knows(dest)
                                ==> exists|j: int|
                                0 <= j < st.1@.len() && st.1@[j] == (Action::Payload {
                                    src: st.0.apparent_source(src, dest),
                                    dest,
                                    msg,
                                }),
                            _ => true,
                        })))
                    &&& (match imp {
                        Impulse::Payload(src, dest, msg) => (self.phase_spec() is Running
                            && self.relay_view().len() + 1 <= DRAIN_BUDGET && !st.0.knows(dest))
                            ==> exists|j: int|
                            0 <= j < st.1@.len() && st.1@[j] == (Action::Payload {
                                src: st.0.apparent_source(src, dest),
                                dest,
                                msg,
                            }),
                        _ => true,
                    })
                    &&& (forall|i: int|
                        0 <= i < self.entry_count() ==> (#[trigger] self.entries_view()[i]).trace_spec().is_prefix_of(
                            st.0.entries_view()[i].trace_spec(),
                        ))
                    &&& (match imp {
                        Impulse::Payload(src, dest, msg) => (self.phase_spec() is Running
                            && self.relay_view().len() + 1 <= DRAIN_BUDGET && (exists|i: int|
                            0 <= i < self.entry_count() && (#[trigger] self.entries_view()[i]).handle_spec()
                                == dest && self.entries_view()[i].soma_spec() is Some))
                            ==> (exists|i: int|
                            0 <= i < self.entry_count() && (#[trigger] st.0.entries_view()[i]).handle_spec()
                                == dest && st.0.entries_view()[i].trace_spec().len() > self.entries_view()[i].trace_spec().len()),
                        Impulse::Signal(_, _) => (self.phase_spec() is Running
                            && self.relay_view().len() + 1 <= DRAIN_BUDGET && (exists|i: int|
                            0 <= i < self.entry_count() && (#[trigger] self.entries_view()[i]).handle_spec()
                                == self.input_spec() && self.entries_view()[i].soma_spec()
                                is Some)) ==> (exists|i: int|
                            0 <= i < self.entry_count() && (#[trigger] st.0.entries_view()[i]).handle_spec()
                                == self.input_spec() && st.0.entries_view()[i].trace_spec().len()
                                > self.entries_view()[i].trace_spec().len()),
                        _ => true,
                    })
                },
                Err(_) => !imp.kind().is_terminal(),
            }),
    {
        let mut org = self;
        match imp {
            Impulse::Init(fx) => {
                if match org.phase {
                    Phase::Uninitialized => true,
                    _ => false,
                } {
                    let ghost pre = org;
                    org.handle = fx.this_soma();
                    org.init_entries();
                    org.phase = Phase::Initialized;
                    proof {
                        assert forall|i: int| 0 <= i < org.entry_count()
                            implies (#[trigger] org.entries_view()[i]).consistent()
                            && org.entries_view()[i].inv_ok() && entry_phase_ok(
                            org.phase_spec(),
                            org.entries_view()[i],
                        ) by {
                            assert(inited_from(pre.entries_view()[i], org.entries_view()[i]));
                        }
                        lemma_wf_same_handles(pre, org);
                    }
                    Ok((org, Vec::new()))
                } else {
                    Err(Fault::Custom(String::from_str("unexpected impulse")))
                }
            },
            Impulse::AddInput(h, role) => {
                if match org.phase {
                    Phase::Initialized => true,
                    Phase::Wiring => true,
                    _ => false,
                } {
                    let target = org.input;
                    org.forward_wiring(target, Impulse::AddInput(h, role));
                    Ok((org, Vec::new()))
                } else {
                    Err(Fault::Custom(String::from_str("unexpected impulse")))
                }
            },
            Impulse::AddOutput(h, role) => {
                if match org.phase {
                    Phase::Initialized => true,
                    Phase::Wiring => true,
                    _ => false,
                } {
                    let target = org.output;
                    org.forward_wiring(target, Impulse::AddOutput(h, role));
                    Ok((org, Vec::new()))
                } else {
                    Err(Fault::Custom(String::from_str("unexpected impulse")))
                }
            },
            Impulse::Start => {
                if match org.phase {
                    Phase::Initialized => true,
                    Phase::Wiring => true,
                    _ => false,
                } {
                    let ghost pre = org;
                    org.init_entries();
                    proof {
                        assert forall|i: int| 0 <= i < org.entry_count() implies wirable(
                            #[trigger] org.entries_view()[i],
                        ) by {
                            assert(inited_from(pre.entries_view()[i], org.entries_view()[i]));
                        }
                        lemma_conns_known_same_handles(
                            pre.entries_view(),
                            org.entries_view(),
                            org.connections_view(),
                        );
                    }
                    org.wire_connections();
                    org.start_entries();
                    org.phase = Phase::Running;
                    proof {
                        assert forall|i: int| 0 <= i < org.entry_count()
                            implies (#[trigger] org.entries_view()[i]).consistent()
                            && org.entries_view()[i].inv_ok() && entry_phase_ok(
                            org.phase_spec(),
                            org.entries_view()[i],
                        ) by {
                            assert(started(org.entries_view()[i]));
                        }
                        lemma_wf_same_handles(pre, org);
                    }
                    let (out, _) = org.drain(DRAIN_BUDGET);
                    Ok((org, out))
                } else {
                    Err(Fault::Custom(String::from_str("unexpected impulse")))
                }
            },
            Impulse::Signal(src, msg) => {
                if match org.phase {
                    Phase::Running => true,
                    _ => false,
                } {
                    let ghost pre = org;
                    let dest = org.input;
                    org.relay.send(Action::Payload { src, dest, msg });
                    proof {
                        lemma_wf_same_handles(pre, org);
                    }
                    let ghost queued = org;
                    let (out, _) = org.drain(DRAIN_BUDGET);
                    proof {
                        if pre.relay_view().len() + 1 <= DRAIN_BUDGET {
                            assert forall|k: int|
                                0 <= k < pre.relay_view().len() && ((
                                #[trigger] pre.relay_view()[k]) is Stop || pre.relay_view()[k]
                                    is Error) implies exists|j: int|
                                0 <= j < out@.len() && out@[j] == pre.relay_view()[k] by {
                                assert(queued.relay_view()[k] == pre.relay_view()[k]);
                            }
                            assert forall|k: int| 0 <= k < pre.relay_view().len()
                                implies (match #[trigger] pre.relay_view()[k] {
                                Action::Payload { src: s4, dest: d4, msg: m4 } => !org.knows(d4)
                                    ==> exists|j: int|
                                    0 <= j < out@.len() && out@[j] == (Action::Payload {
                                        src: org.apparent_source(s4, d4),
                                        dest: d4,
                                        msg: m4,
                                    }),
                                _ => true,
                            }) by {
                                assert(queued.relay_view()[k] == pre.relay_view()[k]);
                            }
                            assert(queued.relay_view()[queued.relay_view().len() - 1]
                                == (Action::Payload { src, dest, msg }));
                        }
                    }
                    Ok((org, out))
                } else {
                    Err(Fault::Custom(String::from_str("unexpected impulse")))
                }
            },
            Impulse::Payload(src, dest, msg) => {
                if match org.phase {
                    Phase::Running => true,
                    _ => false,
                } {
                    let ghost pre = org;
                    org.relay.send(Action::Payload { src, dest, msg });
                    proof {
                        lemma_wf_same_handles(pre, org);
                    }
                    let ghost queued = org;
                    let (out, _) = org.drain(DRAIN_BUDGET);
                    proof {
                        if pre.relay_view().len() + 1 <= DRAIN_BUDGET {
                            assert forall|k: int|
                                0 <= k < pre.relay_view().len() && ((
                                #[trigger] pre.relay_view()[k]) is Stop || pre.relay_view()[k]
                                    is Error) implies exists|j: int|
                                0 <= j < out@.len() && out@[j] == pre.relay_view()[k] by {
                                assert(queued.relay_view()[k] == pre.relay_view()[k]);
                            }
                            assert forall|k: int| 0 <= k < pre.relay_view().len()
                                implies (match #[trigger] pre.relay_view()[k] {
                                Action::Payload { src: s4, dest: d4, msg: m4 } => !org.knows(d4)
                                    ==> exists|j: int|
                                    0 <= j < out@.len() && out@[j] == (Action::Payload {
                                        src: org.apparent_source(s4, d4),
                                        dest: d4,
                                        msg: m4,
                                    }),
                                _ => true,
                            }) by {
                                assert(queued.relay_view()[k] == pre.relay_view()[k]);
                            }
                            assert(queued.relay_view()[queued.relay_view().len() - 1]
                                == (Action::Payload { src, dest, msg }));
                        }
                    }
                    Ok((org, out))
                } else {
                    Err(Fault::Custom(String::from_str("unexpected impulse")))
                }
            },
            Impulse::Stop => {
                if match org.phase {
                    Phase::Terminated => true,
                    _ => false,
                } {
                    Ok((org, Vec::new()))
                } else {
                    let ghost pre = org;
                    org.terminate_entries(None);
                    org.phase = Phase::Terminated;
                    proof {
                        lemma_wf_same_handles(pre, org);
                    }
                    Ok((org, Vec::new()))
                }
            },
            Impulse::Error(e) => {
                if match org.phase {
                    Phase::Terminated => true,
                    _ => false,
                } {
                    Ok((org, Vec::new()))
                } else {
                    let ghost pre = org;
                    org.terminate_entries(Some(e));
                    org.phase = Phase::Terminated;
                    proof {
                        lemma_wf_same_handles(pre, org);
                    }
                    Ok((org, Vec::new()))
                }
            },
        }
    }
}

/// A chain of component transitions: starting from `start`, one
/// successful `update` per recorded event shape, in order, ending at
/// `end`. What a driver that actually delivered those events could
/// have produced.
pub open spec fn soma_steps<T: Soma>(start: T, kinds: Seq<EventKind>, end: T) -> bool
    decreases kinds.len(),
{
    if kinds.len() == 0 {
        end == start
    } else {
        exists|imp: Impulse<T::Signal, T::Synapse>, mid: T, acts: Vec<Action<T::Signal>>|
            imp.kind() == kinds[0] && #[trigger] call_ensures(
                T::update,
                (start, imp),
                Ok((mid, acts)),
            ) && soma_steps(mid, kinds.drop_first(), end)
    }
}

/// One more successful transition extends a chain at its end.
proof fn lemma_soma_steps_snoc<T: Soma>(
    start: T,
    kinds: Seq<EventKind>,
    mid: T,
    imp: Impulse<T::Signal, T::Synapse>,
    next: T,
    acts: Vec<Action<T::Signal>>,
)
    requires
        soma_steps(start, kinds, mid),
        call_ensures(T::update, (mid, imp), Ok((next, acts))),
    ensures
        soma_steps(start, kinds.push(imp.kind()), next),
    decreases kinds.len(),
{
    if kinds.len() == 0 {
        assert(kinds.push(imp.kind())[0] == imp.kind());
        assert(kinds.push(imp.kind()).drop_first() =~= kinds);
        assert(soma_steps(next, kinds, next));
    } else {
        let (imp0, mid0, acts0) = choose|
            imp0: Impulse<T::Signal, T::Synapse>,
            mid0: T,
            acts0: Vec<Action<T::Signal>>,
        |
            imp0.kind() == kinds[0] && #[trigger] call_ensures(
                T::update,
                (start, imp0),
                Ok((mid0, acts0)),
            ) && soma_steps(mid0, kinds.drop_first(), mid);
        lemma_soma_steps_snoc(mid0, kinds.drop_first(), mid, imp, next, acts);
        assert(kinds.push(imp.kind()).drop_first() =~= kinds.drop_first().push(imp.kind()));
        assert(kinds.push(imp.kind())[0] == kinds[0]);
    }
}

/// Drive a single soma on its own, without a surrounding network: the
/// default run behavior. The soma is initialized and started, and its
/// own sends are then consumed in order — a payload addressed to the
/// soma itself arrives back as a `Signal`, anything addressed
/// elsewhere has no recipient and is dropped — until it requests a
/// stop (it is wound down and the run reports `Stopped`), escalates
/// an error (it is wound down and the escalated cause surfaces), or
/// goes quiet (`Idle`), or the fuel is spent (`Spent`). The ghost
/// result records the shapes of the successfully applied events, in
/// order, and the returned soma is exactly the result of that chain
/// of its own transitions; a failing transition ends the run at once,
/// with the fault chained as a component failure.
pub fn run_soma<T: Soma>(soma: T, fuel: usize) -> (r: (
    Result<(T, RunOutcome), Fault>,
    Ghost<Seq<EventKind>>,
))
    requires
        soma.inv(),
    ensures
        crate::protocol::protocol_ok(r.1@),
        r.1@.len() >= 1 ==> r.1@[0] == EventKind::Init,
        (match r.0 {
            Ok(st) => {
                &&& st.0.inv()
                &&& soma_steps(soma, r.1@, st.0)
                &&& r.1@.len() >= 2
                &&& r.1@[0] == EventKind::Init
                &&& r.1@[1] == EventKind::Start
                &&& (st.1 == RunOutcome::Stopped ==> st.0.stopped() && r.1@.last()
                    == EventKind::Terminal)
            },
            Err(_) => exists|s_last: T| soma_steps(soma, r.1@, s_last),
        }),
{
    let ghost soma0 = soma;
    let me = Handle::allocate();
    let mut queue: Channel<Action<T::Signal>> = Channel::new(RELAY_CAPACITY);
    let ghost mut trace: Seq<EventKind> = Seq::empty();
    let fx: Effector<T::Signal> = Effector::new(me);
    let init_imp = Impulse::Init(fx);
    let ghost gi = init_imp;
    let (mut cur, acts) = (match soma.update(init_imp) {
        Ok(st) => st,
        Err(e) => {
            proof {
                assert(soma_steps(soma0, trace, soma0));
                assert(exists|s_last: T| soma_steps(soma0, trace, s_last));
            }
            return (Err(e.chain()), Ghost(trace));
        },
    });
    proof {
        lemma_soma_steps_snoc(soma0, trace, soma0, gi, cur, acts);
        trace = trace.push(EventKind::Init);
        assert(run_phases(Seq::<EventKind>::empty()) == Some(Phase::Uninitialized));
        assert(trace.drop_last() =~= Seq::<EventKind>::empty());
        assert(run_phases(trace) == Some(Phase::Initialized));
    }
    let mut rest = acts;
    while rest.len() > 0
        invariant
            queue.wf(),
        decreases rest.len(),
    {
        let a = rest.remove(0);
        queue.send(a);
    }
    let ghost after_init = cur;
    let (cur2, acts) = (match cur.update(Impulse::Start) {
        Ok(st) => st,
        Err(e) => {
            proof {
                assert(soma_steps(soma0, trace, after_init));
                assert(exists|s_last: T| soma_steps(soma0, trace, s_last));
            }
            return (Err(e.chain()), Ghost(trace));
        },
    });
    cur = cur2;
    proof {
        lemma_soma_steps_snoc(
            soma0,
            trace,
            after_init,
            Impulse::<T::Signal, T::Synapse>::Start,
            cur,
            acts,
        );
        let prev = trace;
        trace = trace.push(EventKind::Start);
        assert(trace.drop_last() =~= prev);
        assert(run_phases(trace) == Some(Phase::Running));
    }
    let mut rest = acts;
    while rest.len() > 0
        invariant
            queue.wf(),
        decreases rest.len(),
    {
        let a = rest.remove(0);
        queue.send(a);
    }
    let mut left = fuel;
    while left > 0
        invariant
            queue.wf(),
            cur.inv(),
            soma0 == soma,
            soma_steps(soma0, trace, cur),
            run_phases(trace) == Some(Phase::Running),
            trace.len() >= 2,
            trace[0] == EventKind::Init,
            trace[1] == EventKind::Start,
        decreases left,
    {
        match queue.recv() {
            None => {
                return (Ok((cur, RunOutcome::Idle)), Ghost(trace));
            },
            Some(action) => match action {
                Action::Stop => {
                    let ghost prev_soma = cur;
                    match cur.update(Impulse::Stop) {
                        Ok(st) => {
                            proof {
                                lemma_soma_steps_snoc(
                                    soma0,
                                    trace,
                                    prev_soma,
                                    Impulse::<T::Signal, T::Synapse>::Stop,
                                    st.0,
                                    st.1,
                                );
                                let prev = trace;
                                trace = trace.push(EventKind::Terminal);
                                assert(trace.drop_last() =~= prev);
                                assert(run_phases(trace) == Some(Phase::Terminated));
                            }
                            return (Ok((st.0, RunOutcome::Stopped)), Ghost(trace));
                        },
                        Err(e) => {
                            proof {
                                assert(soma_steps(soma0, trace, prev_soma));
                                assert(exists|s_last: T| soma_steps(soma0, trace, s_last));
                            }
                            return (Err(e.chain()), Ghost(trace));
                        },
                    }
                },
                Action::Error(e) => {
                    let cause = e.duplicate();
                    let ghost prev_soma = cur;
                    let ghost err_imp = Impulse::<T::Signal, T::Synapse>::Error(e);
                    match cur.update(Impulse::Error(e)) {
                        Ok(st) => {
                            proof {
                                lemma_soma_steps_snoc(
                                    soma0,
                                    trace,
                                    prev_soma,
                                    err_imp,
                                    st.0,
                                    st.1,
                                );
                                let prev = trace;
                                trace = trace.push(EventKind::Terminal);
                                assert(trace.drop_last() =~= prev);
                                assert(run_phases(trace) == Some(Phase::Terminated));
                            }
                        },
                        Err(_) => {
                            proof {
                                assert(soma_steps(soma0, trace, prev_soma));
                            }
                        },
                    }
                    proof {
                        assert(exists|s_last: T| soma_steps(soma0, trace, s_last));
                    }
                    return (Err(cause), Ghost(trace));
                },
                Action::Payload { src, dest, msg } => {
                    if dest == me {
                        let ghost prev_soma = cur;
                        let ghost sig_imp = Impulse::<T::Signal, T::Synapse>::Signal(src, msg);
                        match cur.update(Impulse::Signal(src, msg)) {
                            Ok(st) => {
                                proof {
                                    lemma_soma_steps_snoc(
                                        soma0,
                                        trace,
                                        prev_soma,
                                        sig_imp,
                                        st.0,
                                        st.1,
                                    );
                                    let prev = trace;
                                    trace = trace.push(EventKind::Signal);
                                    assert(trace.drop_last() =~= prev);
                                    assert(run_phases(trace) == Some(Phase::Running));
                                }
                                cur = st.0;
                                let mut rest = st.1;
                                while rest.len() > 0
                                    invariant
                                        queue.wf(),
                                    decreases rest.len(),
                                {
                                    let a = rest.remove(0);
                                    queue.send(a);
                                }
                            },
                            Err(e) => {
                                proof {
                                    assert(soma_steps(soma0, trace, prev_soma));
                                    assert(exists|s_last: T| soma_steps(soma0, trace, s_last));
                                }
                                return (Err(e.chain()), Ghost(trace));
                            },
                        }
                    }
                },
            },
        }
        left -= 1;
    }
    (Ok((cur, RunOutcome::Spent)), Ghost(trace))
}

/// The identity guarantee at the registry: a well-formed organelle
/// never holds two children under one handle, so every payload
/// destination resolves to at most one child.
pub proof fn lemma_registry_handles_distinct<C: Soma>(org: Organelle<C>, i: int, j: int)
    requires
        org.wf(),
        0 <= i < j < org.entry_count(),
    ensures
        org.entry_handle(i) != org.entry_handle(j),
{
}

/// The composite source re-addressing law: when the distinguished
/// output child `O` of an organelle `C` sends a payload, an external
/// destination observes the source as `C` itself, while any
/// destination interior to `C` (the input child, the output child, or
/// any other known child) observes the source as `O`.
pub proof fn lemma_source_readdressing<C: Soma>(org: Organelle<C>, src: Handle, dest: Handle)
    requires
        src == org.output_spec(),
    ensures
        !org.knows(dest) ==> org.apparent_source(src, dest) == org.my_handle(),
        org.knows(dest) ==> org.apparent_source(src, dest) == src,
{
}

/// Sources other than the output child are never re-addressed,
/// wherever the payload is bound.
pub proof fn lemma_interior_source_kept<C: Soma>(org: Organelle<C>, src: Handle, dest: Handle)
    requires
        src != org.output_spec(),
    ensures
        org.apparent_source(src, dest) == src,
{
}

} // verus!

//! The component contract: control events, the capability object, and
//! the conversion contract between message types.

use vstd::prelude::*;
use crate::fault::Fault;
use crate::handle::Handle;
use crate::protocol::EventKind;

verus! {

/// Requirements of a connection-role type: roles are plain copyable
/// tags that can be compared, so that wiring can be validated against
/// declared constraints.
pub trait Role: Sized + Copy {
    /// The role's human-readable label, mathematically.
    spec fn spec_label(&self) -> Seq<char>;

    /// Decide equality of two roles; `==` on role values is what the
    /// result means.
    fn role_eq(&self, other: &Self) -> (b: bool)
        ensures
            b <==> self == other,
    ;

    /// The role's human-readable label, used in topology
    /// descriptions.
    fn role_label(&self) -> (s: String)
        ensures
            s@ == self.spec_label(),
    ;
}

/// Trait alias to express the (empty) requirements of a synapse tag.
pub trait Synapse {}

impl<T> Synapse for T {}

/// The conversion contract between an inner message or role type and
/// the outer type used by the surrounding network. A pair of total
/// functions, declared explicitly wherever a value crosses a type
/// boundary; the round trip inner -> outer -> inner is the identity.
pub trait Convert<O>: Sized {
    /// The outward conversion, mathematically.
    spec fn spec_to(self) -> O;

    /// The inward conversion, mathematically.
    spec fn spec_from(o: O) -> Self;

    /// Convert a value of this type into the outer type.
    fn to_outer(self) -> (r: O)
        ensures
            r == self.spec_to(),
    ;

    /// Produce a value of this type from the outer type.
    fn from_outer(o: O) -> (r: Self)
        ensures
            r == Self::spec_from(o),
    ;

    /// Converting out and back in reproduces the original value.
    proof fn round_trip(a: Self)
        ensures
            Self::spec_from(a.spec_to()) == a,
    ;
}

impl<T> Convert<T> for T {
    open spec fn spec_to(self) -> T {
        self
    }

    open spec fn spec_from(o: T) -> T {
        o
    }

    fn to_outer(self) -> T {
        self
    }

    fn from_outer(o: T) -> T {
        o
    }

    proof fn round_trip(a: T) {
    }
}

/// What a component asks the substrate to do; built through its
/// effector during a transition and handed back to the owning
/// registry, which performs the delivery asynchronously.
#[derive(Clone)]
pub enum Action<S> {
    /// An en-route message from `src` addressed to `dest`.
    Payload {
        /// The sending component.
        src: Handle,
        /// The destination component.
        dest: Handle,
        /// The user-defined message.
        msg: S,
    },
    /// Request a network-wide graceful stop.
    Stop,
    /// Request a network-wide abort with a cause.
    Error(Fault),
}

/// A set of protocol messages relayed throughout the network, wrapping
/// a user-defined message type `S` and a connection-role type `Y`.
///
/// 1. a soma is always updated with `Init` first;
/// 2. as the network is wired, the soma observes `AddInput` and
///    `AddOutput` notifications;
/// 3. when execution begins, every soma observes `Start` exactly once;
/// 4. messages sent between somas arrive as `Signal`;
/// 5. `Stop` or `Error` is last: the soma observes nothing further.
pub enum Impulse<S, Y> {
    /// Initializes a soma with an effector to use.
    Init(Effector<S>),
    /// Adds an input peer with its connection role.
    AddInput(Handle, Y),
    /// Adds an output peer with its connection role.
    AddOutput(Handle, Y),
    /// Notifies the soma that the network has begun execution.
    Start,
    /// Internal use only: an en-route message with source and
    /// destination, not yet resolved to a receiver.
    Payload(Handle, Handle, S),
    /// A user-defined message that has arrived from the source soma.
    Signal(Handle, S),
    /// Tells the soma that the network is stopping.
    Stop,
    /// Tells the soma that the network is aborting with an error.
    Error(Fault),
}

impl<S, Y> Impulse<S, Y> {
    /// The protocol shape of this impulse, with payloads erased.
    pub open spec fn kind(&self) -> EventKind {
        match self {
            Impulse::Init(_) => EventKind::Init,
            Impulse::AddInput(_, _) => EventKind::Wire,
            Impulse::AddOutput(_, _) => EventKind::Wire,
            Impulse::Start => EventKind::Start,
            Impulse::Payload(_, _, _) => EventKind::Signal,
            Impulse::Signal(_, _) => EventKind::Signal,
            Impulse::Stop => EventKind::Terminal,
            Impulse::Error(_) => EventKind::Terminal,
        }
    }

    /// Whether this impulse is an `Init`.
    pub open spec fn is_init(&self) -> bool {
        self is Init
    }

    /// What converting an impulse from the outer protocol into this
    /// one yields: payloads and roles cross the conversion contract,
    /// handles and markers are unchanged. The `Init` case is excluded
    /// here because its capability object is rebuilt, not converted.
    pub open spec fn spec_converted_from<OS, OY>(msg: Impulse<OS, OY>) -> Impulse<S, Y> where
        S: Convert<OS>,
        Y: Convert<OY>,

        recommends
            !msg.is_init(),
    {
        match msg {
            Impulse::Init(_) => Impulse::Start,
            Impulse::AddInput(h, role) => Impulse::AddInput(h, Y::spec_from(role)),
            Impulse::AddOutput(h, role) => Impulse::AddOutput(h, Y::spec_from(role)),
            Impulse::Start => Impulse::Start,
            Impulse::Payload(src, dest, m) => Impulse::Payload(src, dest, S::spec_from(m)),
            Impulse::Signal(src, m) => Impulse::Signal(src, S::spec_from(m)),
            Impulse::Stop => Impulse::Stop,
            Impulse::Error(e) => Impulse::Error(e),
        }
    }

    /// Convert from another type of impulse. Handles and control
    /// markers pass through unchanged; message and role payloads cross
    /// the conversion contract inward. An `Init` cannot be converted
    /// this way, since its capability object must be rebuilt for the
    /// inner type.
    pub fn convert_from<OS, OY>(msg: Impulse<OS, OY>) -> (r: Impulse<S, Y>) where
        S: Convert<OS>,
        Y: Convert<OY>,

        requires
            !msg.is_init(),
        ensures
            r == Impulse::<S, Y>::spec_converted_from(msg),
            r.kind() == msg.kind(),
    {
        match msg {
            Impulse::Init(_) => vstd::pervasive::unreached(),
            Impulse::AddInput(h, role) => Impulse::AddInput(h, Y::from_outer(role)),
            Impulse::AddOutput(h, role) => Impulse::AddOutput(h, Y::from_outer(role)),
            Impulse::Start => Impulse::Start,
            Impulse::Payload(src, dest, m) => Impulse::Payload(src, dest, S::from_outer(m)),
            Impulse::Signal(src, m) => Impulse::Signal(src, S::from_outer(m)),
            Impulse::Stop => Impulse::Stop,
            Impulse::Error(e) => Impulse::Error(e),
        }
    }

    /// Convert a whole protocol message from the outer type. As
    /// `convert_from`, except that an `Init` is admitted too: the
    /// embedded capability object is replaced by a fresh one bound to
    /// the same owning handle, so that sends performed by the inner
    /// component are translated back by its adapter before reaching
    /// the outer channel.
    pub fn convert_protocol<OS, OY>(msg: Impulse<OS, OY>) -> (r: Impulse<S, Y>) where
        S: Convert<OS>,
        Y: Convert<OY>,

        ensures
            r.kind() == msg.kind(),
            !msg.is_init() ==> r == Impulse::<S, Y>::spec_converted_from(msg),
            (match msg {
                Impulse::Init(fx) => (match r {
                    Impulse::Init(g) => g.owner() == fx.owner()
                        && g.pending() == Seq::<Action<S>>::empty(),
                    _ => false,
                }),
                _ => true,
            }),
    {
        match msg {
            Impulse::Init(fx) => Impulse::Init(Effector::new(fx.this_soma())),
            other => Impulse::convert_from(other),
        }
    }
}

impl<S> Action<S> {
    /// The same action, with the message carried across a type
    /// boundary by the conversion contract; handles are unchanged.
    pub open spec fn spec_to_outer<OS>(self) -> Action<OS> where S: Convert<OS> {
        match self {
            Action::Payload { src, dest, msg } => Action::Payload { src, dest, msg: msg.spec_to() },
            Action::Stop => Action::Stop,
            Action::Error(e) => Action::Error(e),
        }
    }

    /// Carry this action across a type boundary: the message field is
    /// converted outward, everything else is unchanged.
    pub fn convert_out<OS>(self) -> (r: Action<OS>) where S: Convert<OS>
        ensures
            r == self.spec_to_outer(),
    {
        match self {
            Action::Payload { src, dest, msg } => Action::Payload { src, dest, msg: msg.to_outer() },
            Action::Stop => Action::Stop,
            Action::Error(e) => Action::Error(e),
        }
    }
}

/// The effector is a soma's only way of communicating with the rest of
/// the network: it records sends, stop requests and error escalations
/// against the owning soma's handle, and the owning registry performs
/// them after the transition returns.
pub struct Effector<S> {
    this_soma: Handle,
    outbox: Vec<Action<S>>,
}

impl<S> Effector<S> {
    /// The handle of the soma that owns this effector.
    pub closed spec fn owner(&self) -> Handle {
        self.this_soma
    }

    /// The actions recorded so far, oldest first.
    pub closed spec fn pending(&self) -> Seq<Action<S>> {
        self.outbox@
    }

    /// A fresh effector bound to the owning soma's handle, with
    /// nothing recorded yet.
    pub fn new(this_soma: Handle) -> (fx: Effector<S>)
        ensures
            fx.owner() == this_soma,
            fx.pending() == Seq::<Action<S>>::empty(),
    {
        Effector { this_soma, outbox: Vec::new() }
    }

    /// Get the handle associated with the soma that owns this effector.
    pub fn this_soma(&self) -> (h: Handle)
        ensures
            h == self.owner(),
    {
        self.this_soma
    }

    /// Record a message to the destination soma. Delivery is
    /// asynchronous: the message is enqueued as a payload from this
    /// soma, and the caller's transition never blocks.
    pub fn send(&mut self, dest: Handle, msg: S)
        ensures
            final(self).owner() == old(self).owner(),
            final(self).pending() == old(self).pending().push(
                Action::Payload { src: old(self).owner(), dest, msg },
            ),
    {
        let src = self.this_soma;
        self.outbox.push(Action::Payload { src, dest, msg });
    }

    /// Record a batch of messages to the destination soma, delivered
    /// in order, with no other send from this soma interleaved inside
    /// the batch.
    pub fn send_in_order(&mut self, dest: Handle, msgs: Vec<S>)
        ensures
            final(self).owner() == old(self).owner(),
            final(self).pending() == old(self).pending() + Seq::new(
                msgs@.len(),
                |i: int| Action::Payload { src: old(self).owner(), dest, msg: msgs@[i] },
            ),
    {
        let ghost all = msgs@;
        let src = self.this_soma;
        let mut rest = msgs;
        while rest.len() > 0
            invariant
                self.this_soma == src,
                all.len() >= rest.len(),
                rest@ == all.subrange(all.len() - rest.len(), all.len() as int),
                self.outbox@ == old(self).pending() + Seq::new(
                    (all.len() - rest.len()) as nat,
                    |i: int| Action::Payload { src, dest, msg: all[i] },
                ),
            decreases rest.len(),
        {
            let m = rest.remove(0);
            assert(m == all[all.len() - rest.len() - 1]);
            self.outbox.push(Action::Payload { src, dest, msg: m });
            assert(self.outbox@ =~= old(self).pending() + Seq::new(
                (all.len() - rest.len()) as nat,
                |i: int| Action::Payload { src, dest, msg: all[i] },
            ));
        }
        assert(self.outbox@ =~= old(self).pending() + Seq::new(
            all.len(),
            |i: int| Action::Payload { src, dest, msg: all[i] },
        ));
    }

    /// Request that the whole network stop.
    pub fn stop(&mut self)
        ensures
            final(self).owner() == old(self).owner(),
            final(self).pending() == old(self).pending().push(Action::Stop),
    {
        self.outbox.push(Action::Stop);
    }

    /// Request that the whole network abort because of an error. When
    /// the driver winds the network down, an escalated error takes
    /// precedence over a pending graceful stop.
    pub fn error(&mut self, e: Fault)
        ensures
            final(self).owner() == old(self).owner(),
            final(self).pending() == old(self).pending().push(Action::Error(e)),
    {
        self.outbox.push(Action::Error(e));
    }

    /// Hand the recorded actions to the caller, oldest first, leaving
    /// the effector empty; a transition ends by returning these to the
    /// owning registry.
    pub fn take_actions(&mut self) -> (acts: Vec<Action<S>>)
        ensures
            final(self).owner() == old(self).owner(),
            final(self).pending() == Seq::<Action<S>>::empty(),
            acts@ == old(self).pending(),
    {
        let mut out: Vec<Action<S>> = Vec::new();
        std::mem::swap(&mut out, &mut self.outbox);
        out
    }
}

/// How a cloned action relates to its original: sources, destinations
/// and causes are kept; a message payload is duplicated by the message
/// type's own clone, of which nothing is known.
pub open spec fn action_mirrors<S>(a: Action<S>, b: Action<S>) -> bool {
    match (a, b) {
        (
            Action::Payload { src: s1, dest: d1, .. },
            Action::Payload { src: s2, dest: d2, .. },
        ) => s1 == s2 && d1 == d2,
        (Action::Stop, Action::Stop) => true,
        (Action::Error(e1), Action::Error(e2)) => e1 == e2,
        _ => false,
    }
}

impl<S> Clone for Effector<S>
    where S: Clone
{
    /// A clone keeps the owner handle and the recorded actions, in
    /// order: same sources, destinations, stop requests and causes;
    /// message payloads go through the message type's own clone.
    fn clone(&self) -> (fx: Self)
        ensures
            fx.owner() == self.owner(),
            fx.pending().len() == self.pending().len(),
            forall|k: int|
                0 <= k < self.pending().len() ==> action_mirrors(
                    #[trigger] self.pending()[k],
                    fx.pending()[k],
                ),
    {
        let mut outbox: Vec<Action<S>> = Vec::new();
        let mut i: usize = 0;
        while i < self.outbox.len()
            invariant
                i <= self.outbox.len(),
                outbox@.len() == i,
                forall|k: int|
                    0 <= k < i ==> action_mirrors(
                        #[trigger] self.outbox@[k],
                        outbox@[k],
                    ),
            decreases self.outbox.len() - i,
        {
            let copied = match &self.outbox[i] {
                Action::Payload { src, dest, msg } => Action::Payload {
                    src: *src,
                    dest: *dest,
                    msg: msg.clone(),
                },
                Action::Stop => Action::Stop,
                Action::Error(e) => Action::Error(e.duplicate()),
            };
            outbox.push(copied);
            i += 1;
        }
        Effector { this_soma: self.this_soma, outbox }
    }
}

/// The type-erasing adapter: holds exactly one component value and
/// lets it take part in a network whose message and role types differ
/// from its own, by applying the conversion contract on every event in
/// and on every action out.
///
/// The adapter owns the component value exclusively; during an update
/// the value is taken out of the slot, the transition is applied, and
/// the result, if any, is put back. If the transition fails, no
/// previous value is kept: the failure is escalated and the soma takes
/// no further part.
pub struct SomaWrapper<T, OS, OY> {
    soma: Option<T>,
    outer: core::marker::PhantomData<(OS, OY)>,
}

impl<T, OS, OY> SomaWrapper<T, OS, OY> {
    /// The held component value, or `None` after a failed transition.
    pub closed spec fn inner(&self) -> Option<T> {
        self.soma
    }

    /// Wrap a component value for use behind the outer message type.
    pub fn new(soma: T) -> (w: SomaWrapper<T, OS, OY>)
        ensures
            w.inner() == Some(soma),
    {
        SomaWrapper { soma: Some(soma), outer: core::marker::PhantomData }
    }

    /// Look at the held component value.
    pub fn inner_ref(&self) -> (r: &Option<T>)
        ensures
            *r == self.inner(),
    {
        &self.soma
    }
}

impl<T: Soma, OS, OY: Role> Soma for SomaWrapper<T, OS, OY> where
    T::Signal: Convert<OS>,
    T::Synapse: Convert<OY>,
{
    type Signal = OS;
    type Synapse = OY;

    open spec fn inv(&self) -> bool {
        match self.inner() {
            Some(s) => s.inv(),
            None => true,
        }
    }

    open spec fn stopped(&self) -> bool {
        match self.inner() {
            Some(s) => s.stopped(),
            None => true,
        }
    }

    fn update(self, imp: Impulse<OS, OY>) -> (r: Result<
        (Self, Vec<Action<OS>>),
        Fault,
    >)
        ensures
            (match r {
                Ok(st) => {
                    &&& (self.inner() is None ==> st.0 == self && st.1@ == Seq::<Action<
                        OS,
                    >>::empty())
                    &&& ((self.inner() is Some && !imp.is_init()) ==> (exists|
                        s2: T,
                        acts: Vec<Action<T::Signal>>,
                    |
                        {
                            &&& #[trigger] call_ensures(
                                T::update,
                                (
                                    self.inner()->0,
                                    Impulse::<T::Signal, T::Synapse>::spec_converted_from(imp),
                                ),
                                Ok((s2, acts)),
                            )
                            &&& st.0.inner() == Some(s2)
                            &&& st.1@ == acts@.map_values(
                                |a: Action<T::Signal>| a.spec_to_outer(),
                            )
                        }))
                    &&& ((self.inner() is Some && imp is Init) ==> (exists|
                        fx: Effector<T::Signal>,
                        s2: T,
                        acts: Vec<Action<T::Signal>>,
                    |
                        {
                            &&& fx.owner() == imp->Init_0.owner()
                            &&& fx.pending() == Seq::<Action<T::Signal>>::empty()
                            &&& #[trigger] call_ensures(
                                T::update,
                                (self.inner()->0, Impulse::Init(fx)),
                                Ok((s2, acts)),
                            )
                            &&& st.0.inner() == Some(s2)
                            &&& st.1@ == acts@.map_values(
                                |a: Action<T::Signal>| a.spec_to_outer(),
                            )
                        }))
                },
                Err(f) => {
                    &&& self.inner() is Some
                    &&& (!imp.is_init() ==> (exists|g: Fault|
                        {
                            &&& #[trigger] call_ensures(
                                T::update,
                                (
                                    self.inner()->0,
                                    Impulse::<T::Signal, T::Synapse>::spec_converted_from(imp),
                                ),
                                Err(g),
                            )
                            &&& f == Fault::Soma(Box::new(g))
                        }))
                    &&& (imp is Init ==> (exists|fx: Effector<T::Signal>, g: Fault|
                        {
                            &&& fx.owner() == imp->Init_0.owner()
                            &&& fx.pending() == Seq::<Action<T::Signal>>::empty()
                            &&& #[trigger] call_ensures(
                                T::update,
                                (self.inner()->0, Impulse::Init(fx)),
                                Err(g),
                            )
                            &&& f == Fault::Soma(Box::new(g))
                        }))
                },
            }),
    {
        match self.soma {
            None => Ok((self, Vec::new())),
            Some(soma) => {
                let ghost prev = soma;
                let inner_imp = Impulse::<T::Signal, T::Synapse>::convert_protocol(imp);
                let ghost ii = inner_imp;
                match soma.update(inner_imp) {
                    Ok((next, acts)) => {
                        let ghost all = acts@;
                        let mut out: Vec<Action<OS>> = Vec::new();
                        let mut rest = acts;
                        while rest.len() > 0
                            invariant
                                all.len() >= rest.len(),
                                rest@ == all.subrange(
                                    all.len() - rest.len(),
                                    all.len() as int,
                                ),
                                out@ == all.take(all.len() - rest.len()).map_values(
                                    |a: Action<T::Signal>| a.spec_to_outer(),
                                ),
                            decreases rest.len(),
                        {
                            let a = rest.remove(0);
                            proof {
                                assert(a == all[all.len() - rest.len() - 1]);
                            }
                            out.push(a.convert_out());
                            proof {
                                assert(out@ =~= all.take(all.len() - rest.len()).map_values(
                                    |a: Action<T::Signal>| a.spec_to_outer(),
                                ));
                            }
                        }
                        proof {
                            assert(all.take(all.len() as int) =~= all);
                        }
                        Ok((SomaWrapper { soma: Some(next), outer: core::marker::PhantomData }, out))
                    },
                    Err(e) => Err(e.chain()),
                }
            },
        }
    }
}

/// A singular cell of functionality that can be composed into a
/// network: a stream of impulses folded over a value. A transition
/// consumes the current value and one control event, and produces the
/// next value together with the actions to perform, or a failure that
/// ends this soma's participation.
pub trait Soma: Sized {
    /// The user-defined message type this soma exchanges.
    type Signal;
    /// The connection-role type describing the kinds of connection
    /// this soma takes part in.
    type Synapse: Role;

    /// The soma's internal well-formedness. Constructors establish it,
    /// every transition preserves it, and the substrate only ever
    /// holds well-formed somas.
    spec fn inv(&self) -> bool;

    /// Whether this soma has finished participating: true after it has
    /// reacted to a terminal event.
    spec fn stopped(&self) -> bool;

    /// React to a single impulse.
    fn update(self, imp: Impulse<Self::Signal, Self::Synapse>) -> (r: Result<
        (Self, Vec<Action<Self::Signal>>),
        Fault,
    >)
        requires
            self.inv(),
        ensures
            (match r {
                Ok(st) => st.0.inv() && (imp.kind().is_terminal() ==> st.0.stopped()),
                Err(_) => true,
            }),
    ;
}

} // verus!

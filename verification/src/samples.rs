//! Small ready-made somas: a ping/ack pair, an emitter, a recorder and
//! a stopper, together with a sample message-conversion pair. They
//! serve as compact integrations of the substrate — enough to wire up
//! whole networks, nested composites and type-converting boundaries
//! out of the box.

use vstd::prelude::*;
use crate::fault::Fault;
use crate::handle::Handle;
use crate::organelle::Organelle;
use crate::probe::{Describe, SomaData, SynapseData, TopoView};
use crate::protocol::EventKind;
use crate::soma::{Action, Convert, Effector, Impulse, Role, Soma, SomaWrapper};

verus! {

/// The messages the sample somas exchange.
#[derive(Clone, Copy, Debug, PartialEq, Eq, Structural)]
pub enum DemoMsg {
    /// Ask a counter to count one step.
    Increment,
    /// Confirm that a step was counted.
    Ack,
    /// A bare greeting, used to observe who a message appears to come
    /// from.
    Ping,
}

/// The single connection role the sample somas use.
#[derive(Clone, Copy, Debug, PartialEq, Eq, Structural)]
pub enum LinkRole {
    /// An ordinary directed link.
    Link,
}

impl Role for LinkRole {
    open spec fn spec_label(&self) -> Seq<char> {
        "link"@
    }

    fn role_eq(&self, other: &Self) -> bool {
        *self == *other
    }

    fn role_label(&self) -> String {
        String::from_str("link")
    }
}

/// Sends `Increment` to its output peer on `Start`, and again on every
/// `Ack` it receives back.
pub struct Pinger {
    /// The capability object received at `Init`.
    pub fx: Option<Effector<DemoMsg>>,
    /// The output peer announced by wiring.
    pub peer: Option<Handle>,
    /// How many `Increment` messages were sent (saturating).
    pub sent: u8,
    /// Whether a terminal event was observed.
    pub done: bool,
}

impl Pinger {
    /// A fresh pinger with nothing observed yet.
    pub fn new() -> (p: Pinger)
        ensures
            p.inv(),
            !p.stopped(),
            p.sent == 0,
    {
        Pinger { fx: None, peer: None, sent: 0, done: false }
    }
}

impl Soma for Pinger {
    type Signal = DemoMsg;
    type Synapse = LinkRole;

    open spec fn inv(&self) -> bool {
        true
    }

    open spec fn stopped(&self) -> bool {
        self.done
    }

    fn update(self, imp: Impulse<DemoMsg, LinkRole>) -> (r: Result<
        (Self, Vec<Action<DemoMsg>>),
        Fault,
    >)
        ensures
            (match r {
                Ok(st) => (match imp {
                    Impulse::Init(f) => st.0 == (Pinger { fx: Some(f), ..self }) && st.1@
                        == Seq::<Action<DemoMsg>>::empty(),
                    Impulse::AddOutput(h, _) => st.0 == (Pinger { peer: Some(h), ..self })
                        && st.1@ == Seq::<Action<DemoMsg>>::empty(),
                    Impulse::Start => (match (self.fx, self.peer) {
                        (Some(f), Some(p)) => {
                            &&& st.1@ == f.pending().push(
                                Action::Payload { src: f.owner(), dest: p, msg: DemoMsg::Increment },
                            )
                            &&& st.0.sent == (if self.sent < 255 {
                                (self.sent + 1) as u8
                            } else {
                                self.sent
                            })
                            &&& st.0.peer == self.peer
                            &&& st.0.done == self.done
                            &&& (match st.0.fx {
                                Some(f2) => f2.owner() == f.owner() && f2.pending() == Seq::<
                                    Action<DemoMsg>,
                                >::empty(),
                                None => false,
                            })
                        },
                        _ => st.0 == self && st.1@ == Seq::<Action<DemoMsg>>::empty(),
                    }),
                    Impulse::Signal(src, m) => (match (m, self.fx) {
                        (DemoMsg::Ack, Some(f)) => {
                            &&& st.1@ == f.pending().push(
                                Action::Payload {
                                    src: f.owner(),
                                    dest: src,
                                    msg: DemoMsg::Increment,
                                },
                            )
                            &&& st.0.sent == (if self.sent < 255 {
                                (self.sent + 1) as u8
                            } else {
                                self.sent
                            })
                            &&& st.0.peer == self.peer
                            &&& st.0.done == self.done
                            &&& (match st.0.fx {
                                Some(f2) => f2.owner() == f.owner() && f2.pending() == Seq::<
                                    Action<DemoMsg>,
                                >::empty(),
                                None => false,
                            })
                        },
                        _ => st.0 == self && st.1@ == Seq::<Action<DemoMsg>>::empty(),
                    }),
                    Impulse::Stop => st.0 == (Pinger { done: true, ..self }) && st.1@ == Seq::<
                        Action<DemoMsg>,
                    >::empty(),
                    Impulse::Error(_) => st.0 == (Pinger { done: true, ..self }) && st.1@ == Seq::<
                        Action<DemoMsg>,
                    >::empty(),
                    _ => st.0 == self && st.1@ == Seq::<Action<DemoMsg>>::empty(),
                }),
                Err(_) => false,
            }),
    {
        let Pinger { fx, peer, sent, done } = self;
        let mut fx = fx;
        let mut peer = peer;
        let mut sent = sent;
        let mut done = done;
        let mut acts: Vec<Action<DemoMsg>> = Vec::new();
        match imp {
            Impulse::Init(f) => {
                fx = Some(f);
            },
            Impulse::AddOutput(h, _role) => {
                peer = Some(h);
            },
            Impulse::AddInput(_, _) => {},
            Impulse::Start => {
                match fx {
                    Some(mut f) => {
                        match peer {
                            Some(p) => {
                                f.send(p, DemoMsg::Increment);
                                if sent < 255 {
                                    sent = sent + 1;
                                }
                                acts = f.take_actions();
                            },
                            None => {},
                        }
                        fx = Some(f);
                    },
                    None => {
                        fx = None;
                    },
                }
            },
            Impulse::Signal(src, m) => {
                match m {
                    DemoMsg::Ack => {
                        match fx {
                            Some(mut f) => {
                                f.send(src, DemoMsg::Increment);
                                if sent < 255 {
                                    sent = sent + 1;
                                }
                                acts = f.take_actions();
                                fx = Some(f);
                            },
                            None => {
                                fx = None;
                            },
                        }
                    },
                    _ => {},
                }
            },
            Impulse::Payload(_, _, _) => {},
            Impulse::Stop => {
                done = true;
            },
            Impulse::Error(_) => {
                done = true;
            },
        }
        Ok((Pinger { fx, peer, sent, done }, acts))
    }
}

/// Replies `Ack` to each `Increment`, up to five times, and then asks
/// the network to stop.
pub struct Counter {
    /// The capability object received at `Init`.
    pub fx: Option<Effector<DemoMsg>>,
    /// How many `Ack` replies have been sent.
    pub acks: u8,
    /// Whether a terminal event was observed.
    pub done: bool,
}

impl Counter {
    /// A fresh counter with nothing counted yet.
    pub fn new() -> (c: Counter)
        ensures
            c.inv(),
            !c.stopped(),
            c.acks == 0,
    {
        Counter { fx: None, acks: 0, done: false }
    }
}

impl Soma for Counter {
    type Signal = DemoMsg;
    type Synapse = LinkRole;

    open spec fn inv(&self) -> bool {
        true
    }

    open spec fn stopped(&self) -> bool {
        self.done
    }

    fn update(self, imp: Impulse<DemoMsg, LinkRole>) -> (r: Result<
        (Self, Vec<Action<DemoMsg>>),
        Fault,
    >)
        ensures
            (match r {
                Ok(st) => (match imp {
                    Impulse::Init(f) => st.0 == (Counter { fx: Some(f), ..self }) && st.1@
                        == Seq::<Action<DemoMsg>>::empty(),
                    Impulse::Signal(src, m) => (match (m, self.fx) {
                        (DemoMsg::Increment, Some(f)) => {
                            &&& st.1@ == f.pending().push(
                                (if self.acks < 5 {
                                    Action::Payload { src: f.owner(), dest: src, msg: DemoMsg::Ack }
                                } else {
                                    Action::<DemoMsg>::Stop
                                }),
                            )
                            &&& st.0.acks == (if self.acks < 5 {
                                (self.acks + 1) as u8
                            } else {
                                self.acks
                            })
                            &&& st.0.done == self.done
                            &&& (match st.0.fx {
                                Some(f2) => f2.owner() == f.owner() && f2.pending() == Seq::<
                                    Action<DemoMsg>,
                                >::empty(),
                                None => false,
                            })
                        },
                        _ => st.0 == self && st.1@ == Seq::<Action<DemoMsg>>::empty(),
                    }),
                    Impulse::Stop => st.0 == (Counter { done: true, ..self }) && st.1@ == Seq::<
                        Action<DemoMsg>,
                    >::empty(),
                    Impulse::Error(_) => st.0 == (Counter { done: true, ..self }) && st.1@
                        == Seq::<Action<DemoMsg>>::empty(),
                    _ => st.0 == self && st.1@ == Seq::<Action<DemoMsg>>::empty(),
                }),
                Err(_) => false,
            }),
    {
        let Counter { fx, acks, done } = self;
        let mut fx = fx;
        let mut acks = acks;
        let mut done = done;
        let mut acts: Vec<Action<DemoMsg>> = Vec::new();
        match imp {
            Impulse::Init(f) => {
                fx = Some(f);
            },
            Impulse::Signal(src, m) => {
                match m {
                    DemoMsg::Increment => {
                        match fx {
                            Some(mut f) => {
                                if acks < 5 {
                                    acks = acks + 1;
                                    f.send(src, DemoMsg::Ack);
                                } else {
                                    f.stop();
                                }
                                acts = f.take_actions();
                                fx = Some(f);
                            },
                            None => {
                                fx = None;
                            },
                        }
                    },
                    _ => {},
                }
            },
            Impulse::Stop => {
                done = true;
            },
            Impulse::Error(_) => {
                done = true;
            },
            _ => {},
        }
        Ok((Counter { fx, acks, done }, acts))
    }
}

/// Sends one `Ping` to every output peer announced by wiring, in the
/// order the peers were announced, when the network starts.
pub struct Emitter {
    /// The capability object received at `Init`.
    pub fx: Option<Effector<DemoMsg>>,
    /// The output peers, in announcement order.
    pub peers: Vec<Handle>,
    /// Whether a terminal event was observed.
    pub done: bool,
}

impl Emitter {
    /// A fresh emitter with no peers yet.
    pub fn new() -> (e: Emitter)
        ensures
            e.inv(),
            !e.stopped(),
    {
        Emitter { fx: None, peers: Vec::new(), done: false }
    }
}

impl Soma for Emitter {
    type Signal = DemoMsg;
    type Synapse = LinkRole;

    open spec fn inv(&self) -> bool {
        true
    }

    open spec fn stopped(&self) -> bool {
        self.done
    }

    fn update(self, imp: Impulse<DemoMsg, LinkRole>) -> (r: Result<
        (Self, Vec<Action<DemoMsg>>),
        Fault,
    >)
        ensures
            (match r {
                Ok(st) => (match imp {
                    Impulse::Init(f) => st.0 == (Emitter { fx: Some(f), ..self }) && st.1@
                        == Seq::<Action<DemoMsg>>::empty(),
                    Impulse::AddOutput(h, _) => st.0.peers@ == self.peers@.push(h) && st.0.fx
                        == self.fx && st.0.done == self.done && st.1@ == Seq::<
                        Action<DemoMsg>,
                    >::empty(),
                    Impulse::Start => (match self.fx {
                        Some(f) => {
                            &&& st.1@ == f.pending() + Seq::new(
                                self.peers@.len(),
                                |k: int|
                                    Action::Payload {
                                        src: f.owner(),
                                        dest: self.peers@[k],
                                        msg: DemoMsg::Ping,
                                    },
                            )
                            &&& st.0.peers@ == self.peers@
                            &&& st.0.done == self.done
                            &&& (match st.0.fx {
                                Some(f2) => f2.owner() == f.owner() && f2.pending() == Seq::<
                                    Action<DemoMsg>,
                                >::empty(),
                                None => false,
                            })
                        },
                        None => st.0 == self && st.1@ == Seq::<Action<DemoMsg>>::empty(),
                    }),
                    Impulse::Stop => st.0 == (Emitter { done: true, ..self }) && st.1@ == Seq::<
                        Action<DemoMsg>,
                    >::empty(),
                    Impulse::Error(_) => st.0 == (Emitter { done: true, ..self }) && st.1@
                        == Seq::<Action<DemoMsg>>::empty(),
                    _ => st.0 == self && st.1@ == Seq::<Action<DemoMsg>>::empty(),
                }),
                Err(_) => false,
            }),
    {
        let Emitter { fx, peers, done } = self;
        let mut fx = fx;
        let mut peers = peers;
        let mut done = done;
        let mut acts: Vec<Action<DemoMsg>> = Vec::new();
        match imp {
            Impulse::Init(f) => {
                fx = Some(f);
            },
            Impulse::AddOutput(h, _role) => {
                peers.push(h);
            },
            Impulse::Start => {
                match fx {
                    Some(mut f) => {
                        let ghost f0 = f;
                        let mut i: usize = 0;
                        while i < peers.len()
                            invariant
                                i <= peers.len(),
                                f.owner() == f0.owner(),
                                f.pending() == f0.pending() + Seq::new(
                                    i as nat,
                                    |k: int|
                                        Action::Payload {
                                            src: f0.owner(),
                                            dest: peers@[k],
                                            msg: DemoMsg::Ping,
                                        },
                                ),
                            decreases peers.len() - i,
                        {
                            f.send(peers[i], DemoMsg::Ping);
                            proof {
                                assert(f.pending() =~= f0.pending() + Seq::new(
                                    (i + 1) as nat,
                                    |k: int|
                                        Action::Payload {
                                            src: f0.owner(),
                                            dest: peers@[k],
                                            msg: DemoMsg::Ping,
                                        },
                                ));
                            }
                            i += 1;
                        }
                        acts = f.take_actions();
                        fx = Some(f);
                    },
                    None => {
                        fx = None;
                    },
                }
            },
            Impulse::Stop => {
                done = true;
            },
            Impulse::Error(_) => {
                done = true;
            },
            _ => {},
        }
        Ok((Emitter { fx, peers, done }, acts))
    }
}

/// Records every message it is delivered, together with the source
/// the substrate presented for it.
pub struct Recorder {
    /// The observed messages: source and payload, in arrival order.
    pub got: Vec<(Handle, DemoMsg)>,
    /// Whether a terminal event was observed.
    pub done: bool,
}

impl Recorder {
    /// A fresh recorder with nothing observed yet.
    pub fn new() -> (r: Recorder)
        ensures
            r.inv(),
            !r.stopped(),
            r.got@.len() == 0,
    {
        Recorder { got: Vec::new(), done: false }
    }
}

impl Soma for Recorder {
    type Signal = DemoMsg;
    type Synapse = LinkRole;

    open spec fn inv(&self) -> bool {
        true
    }

    open spec fn stopped(&self) -> bool {
        self.done
    }

    fn update(self, imp: Impulse<DemoMsg, LinkRole>) -> (r: Result<
        (Self, Vec<Action<DemoMsg>>),
        Fault,
    >)
        ensures
            (match r {
                Ok(st) => st.1@ == Seq::<Action<DemoMsg>>::empty() && (match imp {
                    Impulse::Signal(src, m) => st.0.got@ == self.got@.push((src, m)) && st.0.done
                        == self.done,
                    Impulse::Stop => st.0.got@ == self.got@ && st.0.done,
                    Impulse::Error(_) => st.0.got@ == self.got@ && st.0.done,
                    _ => st.0 == self,
                }),
                Err(_) => false,
            }),
    {
        let Recorder { got, done } = self;
        let mut got = got;
        let mut done = done;
        match imp {
            Impulse::Signal(src, m) => {
                got.push((src, m));
            },
            Impulse::Stop => {
                done = true;
            },
            Impulse::Error(_) => {
                done = true;
            },
            _ => {},
        }
        Ok((Recorder { got, done }, Vec::new()))
    }
}

/// Asks the network to stop as soon as it starts.
pub struct Stopper {
    /// The capability object received at `Init`.
    pub fx: Option<Effector<DemoMsg>>,
    /// Whether a terminal event was observed.
    pub done: bool,
}

impl Stopper {
    /// A fresh stopper.
    pub fn new() -> (s: Stopper)
        ensures
            s.inv(),
            !s.stopped(),
    {
        Stopper { fx: None, done: false }
    }
}

impl Soma for Stopper {
    type Signal = DemoMsg;
    type Synapse = LinkRole;

    open spec fn inv(&self) -> bool {
        true
    }

    open spec fn stopped(&self) -> bool {
        self.done
    }

    fn update(self, imp: Impulse<DemoMsg, LinkRole>) -> (r: Result<
        (Self, Vec<Action<DemoMsg>>),
        Fault,
    >)
        ensures
            (match r {
                Ok(st) => (match imp {
                    Impulse::Init(f) => st.0 == (Stopper { fx: Some(f), ..self }) && st.1@
                        == Seq::<Action<DemoMsg>>::empty(),
                    Impulse::Start => (match self.fx {
                        Some(f) => {
                            &&& st.1@ == f.pending().push(Action::<DemoMsg>::Stop)
                            &&& st.0.done == self.done
                            &&& (match st.0.fx {
                                Some(f2) => f2.owner() == f.owner() && f2.pending() == Seq::<
                                    Action<DemoMsg>,
                                >::empty(),
                                None => false,
                            })
                        },
                        None => st.0 == self && st.1@ == Seq::<Action<DemoMsg>>::empty(),
                    }),
                    Impulse::Stop => st.0 == (Stopper { done: true, ..self }) && st.1@ == Seq::<
                        Action<DemoMsg>,
                    >::empty(),
                    Impulse::Error(_) => st.0 == (Stopper { done: true, ..self }) && st.1@
                        == Seq::<Action<DemoMsg>>::empty(),
                    _ => st.0 == self && st.1@ == Seq::<Action<DemoMsg>>::empty(),
                }),
                Err(_) => false,
            }),
    {
        let Stopper { fx, done } = self;
        let mut fx = fx;
        let mut done = done;
        let mut acts: Vec<Action<DemoMsg>> = Vec::new();
        match imp {
            Impulse::Init(f) => {
                fx = Some(f);
            },
            Impulse::Start => {
                match fx {
                    Some(mut f) => {
                        f.stop();
                        acts = f.take_actions();
                        fx = Some(f);
                    },
                    None => {
                        fx = None;
                    },
                }
            },
            Impulse::Stop => {
                done = true;
            },
            Impulse::Error(_) => {
                done = true;
            },
            _ => {},
        }
        Ok((Stopper { fx, done }, acts))
    }
}

/// Records the protocol shape of every event it observes, in order: a
/// window onto the ordering guarantee the substrate gives each
/// component.
pub struct Auditor {
    /// The shapes of the observed events, oldest first.
    pub log: Vec<EventKind>,
    /// Whether a terminal event was observed.
    pub done: bool,
}

impl Auditor {
    /// A fresh auditor with nothing observed yet.
    pub fn new() -> (a: Auditor)
        ensures
            a.inv(),
            !a.stopped(),
            a.log@.len() == 0,
    {
        Auditor { log: Vec::new(), done: false }
    }
}

impl Soma for Auditor {
    type Signal = DemoMsg;
    type Synapse = LinkRole;

    open spec fn inv(&self) -> bool {
        true
    }

    open spec fn stopped(&self) -> bool {
        self.done
    }

    fn update(self, imp: Impulse<DemoMsg, LinkRole>) -> (r: Result<
        (Self, Vec<Action<DemoMsg>>),
        Fault,
    >)
        ensures
            (match r {
                Ok(st) => st.0.log@ == self.log@.push(imp.kind()),
                Err(_) => false,
            }),
    {
        let Auditor { log, done } = self;
        let mut log = log;
        let mut done = done;
        match imp {
            Impulse::Init(_) => {
                log.push(EventKind::Init);
            },
            Impulse::AddInput(_, _) => {
                log.push(EventKind::Wire);
            },
            Impulse::AddOutput(_, _) => {
                log.push(EventKind::Wire);
            },
            Impulse::Start => {
                log.push(EventKind::Start);
            },
            Impulse::Payload(_, _, _) => {
                log.push(EventKind::Signal);
            },
            Impulse::Signal(_, _) => {
                log.push(EventKind::Signal);
            },
            Impulse::Stop => {
                log.push(EventKind::Terminal);
                done = true;
            },
            Impulse::Error(_) => {
                log.push(EventKind::Terminal);
                done = true;
            },
        }
        Ok((Auditor { log, done }, Vec::new()))
    }
}

/// Fails its transition as soon as the network starts: a probe for
/// the failure-escalation path.
pub struct Tripwire {
    /// Whether a terminal event was observed.
    pub done: bool,
}

impl Tripwire {
    /// A fresh tripwire.
    pub fn new() -> (t: Tripwire)
        ensures
            t.inv(),
            !t.stopped(),
    {
        Tripwire { done: false }
    }
}

impl Soma for Tripwire {
    type Signal = DemoMsg;
    type Synapse = LinkRole;

    open spec fn inv(&self) -> bool {
        true
    }

    open spec fn stopped(&self) -> bool {
        self.done
    }

    fn update(self, imp: Impulse<DemoMsg, LinkRole>) -> Result<
        (Self, Vec<Action<DemoMsg>>),
        Fault,
    > {
        let Tripwire { done } = self;
        let mut done = done;
        match imp {
            Impulse::Start => {
                return Err(Fault::Custom(String::from_str("tripwire sprung")));
            },
            Impulse::Stop => {
                done = true;
            },
            Impulse::Error(_) => {
                done = true;
            },
            _ => {},
        }
        Ok((Tripwire { done }, Vec::new()))
    }
}

impl Describe for Tripwire {
    open spec fn topo(&self) -> TopoView {
        TopoView::Soma { synapse: "link"@, name: "tripwire"@ }
    }

    fn describe(&self) -> SomaData {
        SomaData::Soma {
            synapse: SynapseData(String::from_str("link")),
            name: String::from_str("tripwire"),
        }
    }
}

/// The private message type of the inner sample network: what its
/// members speak among themselves, translated at the boundary when a
/// message enters or leaves.
#[derive(Clone, Copy, Debug, PartialEq, Eq, Structural)]
pub enum InnerMsg {
    /// A step request, as the inner network knows it.
    Bump,
    /// A confirmation, as the inner network knows it.
    Confirm,
    /// A greeting, as the inner network knows it.
    Wave,
}

/// The private connection role of the inner sample network.
#[derive(Clone, Copy, Debug, PartialEq, Eq, Structural)]
pub enum InnerRole {
    /// An ordinary directed link.
    Link,
}

impl Role for InnerRole {
    open spec fn spec_label(&self) -> Seq<char> {
        "link"@
    }

    fn role_eq(&self, other: &Self) -> bool {
        *self == *other
    }

    fn role_label(&self) -> String {
        String::from_str("link")
    }
}

impl Convert<DemoMsg> for InnerMsg {
    open spec fn spec_to(self) -> DemoMsg {
        match self {
            InnerMsg::Bump => DemoMsg::Increment,
            InnerMsg::Confirm => DemoMsg::Ack,
            InnerMsg::Wave => DemoMsg::Ping,
        }
    }

    open spec fn spec_from(o: DemoMsg) -> InnerMsg {
        match o {
            DemoMsg::Increment => InnerMsg::Bump,
            DemoMsg::Ack => InnerMsg::Confirm,
            DemoMsg::Ping => InnerMsg::Wave,
        }
    }

    fn to_outer(self) -> DemoMsg {
        match self {
            InnerMsg::Bump => DemoMsg::Increment,
            InnerMsg::Confirm => DemoMsg::Ack,
            InnerMsg::Wave => DemoMsg::Ping,
        }
    }

    fn from_outer(o: DemoMsg) -> InnerMsg {
        match o {
            DemoMsg::Increment => InnerMsg::Bump,
            DemoMsg::Ack => InnerMsg::Confirm,
            DemoMsg::Ping => InnerMsg::Wave,
        }
    }

    proof fn round_trip(a: InnerMsg) {
    }
}

impl Convert<LinkRole> for InnerRole {
    open spec fn spec_to(self) -> LinkRole {
        LinkRole::Link
    }

    open spec fn spec_from(o: LinkRole) -> InnerRole {
        InnerRole::Link
    }

    fn to_outer(self) -> LinkRole {
        LinkRole::Link
    }

    fn from_outer(o: LinkRole) -> InnerRole {
        InnerRole::Link
    }

    proof fn round_trip(a: InnerRole) {
    }
}

/// The declared conversion pair between the inner and the outer
/// sample message types makes a faithful round trip: translating any
/// inner message out to the network type and back in reproduces it.
pub proof fn lemma_sample_conversion_round_trip(m: InnerMsg)
    ensures
        <InnerMsg as Convert<DemoMsg>>::spec_from(m.spec_to()) == m,
{
    <InnerMsg as Convert<DemoMsg>>::round_trip(m);
}

/// Records every message it is delivered, in the inner network's own
/// message type.
pub struct InnerRecorder {
    /// The observed messages: source and payload, in arrival order.
    pub got: Vec<(Handle, InnerMsg)>,
    /// Whether a terminal event was observed.
    pub done: bool,
}

impl InnerRecorder {
    /// A fresh recorder with nothing observed yet.
    pub fn new() -> (r: InnerRecorder)
        ensures
            r.inv(),
            !r.stopped(),
            r.got@.len() == 0,
    {
        InnerRecorder { got: Vec::new(), done: false }
    }
}

impl Soma for InnerRecorder {
    type Signal = InnerMsg;
    type Synapse = InnerRole;

    open spec fn inv(&self) -> bool {
        true
    }

    open spec fn stopped(&self) -> bool {
        self.done
    }

    fn update(self, imp: Impulse<InnerMsg, InnerRole>) -> Result<
        (Self, Vec<Action<InnerMsg>>),
        Fault,
    > {
        let InnerRecorder { got, done } = self;
        let mut got = got;
        let mut done = done;
        match imp {
            Impulse::Signal(src, m) => {
                got.push((src, m));
            },
            Impulse::Stop => {
                done = true;
            },
            Impulse::Error(_) => {
                done = true;
            },
            _ => {},
        }
        Ok((InnerRecorder { got, done }, Vec::new()))
    }
}

/// The members of the inner sample network, speaking `InnerMsg`.
pub enum InnerNet {
    /// A recorder in the inner message type.
    Recorder(InnerRecorder),
}

impl Soma for InnerNet {
    type Signal = InnerMsg;
    type Synapse = InnerRole;

    open spec fn inv(&self) -> bool {
        match self {
            InnerNet::Recorder(s) => s.inv(),
        }
    }

    open spec fn stopped(&self) -> bool {
        match self {
            InnerNet::Recorder(s) => s.stopped(),
        }
    }

    fn update(self, imp: Impulse<InnerMsg, InnerRole>) -> Result<
        (Self, Vec<Action<InnerMsg>>),
        Fault,
    > {
        match self {
            InnerNet::Recorder(s) => match s.update(imp) {
                Ok((s2, a)) => Ok((InnerNet::Recorder(s2), a)),
                Err(e) => Err(e),
            },
        }
    }
}

/// A network member that is either an ordinary leaf or a whole inner
/// network with its own private message type, adapted to the outer
/// type through the conversion contract.
pub enum BoundaryNet {
    /// An ordinary leaf member.
    Leaf(DemoNet),
    /// An inner network speaking `InnerMsg`, translated at the
    /// boundary.
    Wrapped(Box<SomaWrapper<Organelle<InnerNet>, DemoMsg, LinkRole>>),
}

impl Soma for BoundaryNet {
    type Signal = DemoMsg;
    type Synapse = LinkRole;

    open spec fn inv(&self) -> bool {
        match self {
            BoundaryNet::Leaf(s) => s.inv(),
            BoundaryNet::Wrapped(s) => s.inv(),
        }
    }

    open spec fn stopped(&self) -> bool {
        match self {
            BoundaryNet::Leaf(s) => s.stopped(),
            BoundaryNet::Wrapped(s) => s.stopped(),
        }
    }

    fn update(self, imp: Impulse<DemoMsg, LinkRole>) -> Result<
        (Self, Vec<Action<DemoMsg>>),
        Fault,
    > {
        match self {
            BoundaryNet::Leaf(s) => match s.update(imp) {
                Ok((s2, a)) => Ok((BoundaryNet::Leaf(s2), a)),
                Err(e) => Err(e),
            },
            BoundaryNet::Wrapped(s) => match (*s).update(imp) {
                Ok((s2, a)) => Ok((BoundaryNet::Wrapped(Box::new(s2)), a)),
                Err(e) => Err(e),
            },
        }
    }
}

/// The sum of the sample leaf somas, fit to populate one network.
pub enum DemoNet {
    /// A ping/ack source.
    Pinger(Pinger),
    /// A counting sink.
    Counter(Counter),
    /// A one-shot broadcaster.
    Emitter(Emitter),
    /// A message recorder.
    Recorder(Recorder),
    /// A stop requester.
    Stopper(Stopper),
    /// A protocol-event recorder.
    Auditor(Auditor),
    /// A soma that fails on start.
    Tripwire(Tripwire),
}

impl Soma for DemoNet {
    type Signal = DemoMsg;
    type Synapse = LinkRole;

    open spec fn inv(&self) -> bool {
        match self {
            DemoNet::Pinger(s) => s.inv(),
            DemoNet::Counter(s) => s.inv(),
            DemoNet::Emitter(s) => s.inv(),
            DemoNet::Recorder(s) => s.inv(),
            DemoNet::Stopper(s) => s.inv(),
            DemoNet::Auditor(s) => s.inv(),
            DemoNet::Tripwire(s) => s.inv(),
        }
    }

    open spec fn stopped(&self) -> bool {
        match self {
            DemoNet::Pinger(s) => s.stopped(),
            DemoNet::Counter(s) => s.stopped(),
            DemoNet::Emitter(s) => s.stopped(),
            DemoNet::Recorder(s) => s.stopped(),
            DemoNet::Stopper(s) => s.stopped(),
            DemoNet::Auditor(s) => s.stopped(),
            DemoNet::Tripwire(s) => s.stopped(),
        }
    }

    fn update(self, imp: Impulse<DemoMsg, LinkRole>) -> Result<
        (Self, Vec<Action<DemoMsg>>),
        Fault,
    > {
        match self {
            DemoNet::Pinger(s) => match s.update(imp) {
                Ok((s2, a)) => Ok((DemoNet::Pinger(s2), a)),
                Err(e) => Err(e),
            },
            DemoNet::Counter(s) => match s.update(imp) {
                Ok((s2, a)) => Ok((DemoNet::Counter(s2), a)),
                Err(e) => Err(e),
            },
            DemoNet::Emitter(s) => match s.update(imp) {
                Ok((s2, a)) => Ok((DemoNet::Emitter(s2), a)),
                Err(e) => Err(e),
            },
            DemoNet::Recorder(s) => match s.update(imp) {
                Ok((s2, a)) => Ok((DemoNet::Recorder(s2), a)),
                Err(e) => Err(e),
            },
            DemoNet::Stopper(s) => match s.update(imp) {
                Ok((s2, a)) => Ok((DemoNet::Stopper(s2), a)),
                Err(e) => Err(e),
            },
            DemoNet::Auditor(s) => match s.update(imp) {
                Ok((s2, a)) => Ok((DemoNet::Auditor(s2), a)),
                Err(e) => Err(e),
            },
            DemoNet::Tripwire(s) => match s.update(imp) {
                Ok((s2, a)) => Ok((DemoNet::Tripwire(s2), a)),
                Err(e) => Err(e),
            },
        }
    }
}

/// One nesting level: a member of a network that is either a leaf
/// soma or a whole sub-network of `C` members. Deeper nesting is
/// expressed by instantiating `C` with another level of `Nested`.
pub enum Nested<C: Soma> {
    /// An ordinary leaf member.
    Leaf(DemoNet),
    /// A nested network behaving as a single member.
    Sub(Box<Organelle<C>>),
}

impl<C: Soma<Signal = DemoMsg, Synapse = LinkRole>> Soma for Nested<C> {
    type Signal = DemoMsg;
    type Synapse = LinkRole;

    open spec fn inv(&self) -> bool {
        match self {
            Nested::Leaf(s) => s.inv(),
            Nested::Sub(s) => s.inv(),
        }
    }

    open spec fn stopped(&self) -> bool {
        match self {
            Nested::Leaf(s) => s.stopped(),
            Nested::Sub(s) => s.stopped(),
        }
    }

    fn update(self, imp: Impulse<DemoMsg, LinkRole>) -> Result<
        (Self, Vec<Action<DemoMsg>>),
        Fault,
    > {
        match self {
            Nested::Leaf(s) => match s.update(imp) {
                Ok((s2, a)) => Ok((Nested::Leaf(s2), a)),
                Err(e) => Err(e),
            },
            Nested::Sub(s) => match (*s).update(imp) {
                Ok((s2, a)) => Ok((Nested::Sub(Box::new(s2)), a)),
                Err(e) => Err(e),
            },
        }
    }
}

impl Describe for Pinger {
    open spec fn topo(&self) -> TopoView {
        TopoView::Soma { synapse: "link"@, name: "pinger"@ }
    }

    fn describe(&self) -> SomaData {
        SomaData::Soma {
            synapse: SynapseData(String::from_str("link")),
            name: String::from_str("pinger"),
        }
    }
}

impl Describe for Counter {
    open spec fn topo(&self) -> TopoView {
        TopoView::Soma { synapse: "link"@, name: "counter"@ }
    }

    fn describe(&self) -> SomaData {
        SomaData::Soma {
            synapse: SynapseData(String::from_str("link")),
            name: String::from_str("counter"),
        }
    }
}

impl Describe for Emitter {
    open spec fn topo(&self) -> TopoView {
        TopoView::Soma { synapse: "link"@, name: "emitter"@ }
    }

    fn describe(&self) -> SomaData {
        SomaData::Soma {
            synapse: SynapseData(String::from_str("link")),
            name: String::from_str("emitter"),
        }
    }
}

impl Describe for Recorder {
    open spec fn topo(&self) -> TopoView {
        TopoView::Soma { synapse: "link"@, name: "recorder"@ }
    }

    fn describe(&self) -> SomaData {
        SomaData::Soma {
            synapse: SynapseData(String::from_str("link")),
            name: String::from_str("recorder"),
        }
    }
}

impl Describe for Stopper {
    open spec fn topo(&self) -> TopoView {
        TopoView::Soma { synapse: "link"@, name: "stopper"@ }
    }

    fn describe(&self) -> SomaData {
        SomaData::Soma {
            synapse: SynapseData(String::from_str("link")),
            name: String::from_str("stopper"),
        }
    }
}

impl Describe for Auditor {
    open spec fn topo(&self) -> TopoView {
        TopoView::Soma { synapse: "link"@, name: "auditor"@ }
    }

    fn describe(&self) -> SomaData {
        SomaData::Soma {
            synapse: SynapseData(String::from_str("link")),
            name: String::from_str("auditor"),
        }
    }
}

impl Describe for DemoNet {
    open spec fn topo(&self) -> TopoView {
        match self {
            DemoNet::Pinger(s) => s.topo(),
            DemoNet::Counter(s) => s.topo(),
            DemoNet::Emitter(s) => s.topo(),
            DemoNet::Recorder(s) => s.topo(),
            DemoNet::Stopper(s) => s.topo(),
            DemoNet::Auditor(s) => s.topo(),
            DemoNet::Tripwire(s) => s.topo(),
        }
    }

    fn describe(&self) -> SomaData {
        match self {
            DemoNet::Pinger(s) => s.describe(),
            DemoNet::Counter(s) => s.describe(),
            DemoNet::Emitter(s) => s.describe(),
            DemoNet::Recorder(s) => s.describe(),
            DemoNet::Stopper(s) => s.describe(),
            DemoNet::Auditor(s) => s.describe(),
            DemoNet::Tripwire(s) => s.describe(),
        }
    }
}

impl<C: Soma<Signal = DemoMsg, Synapse = LinkRole> + Describe> Describe for Nested<C> {
    open spec fn topo(&self) -> TopoView {
        match self {
            Nested::Leaf(s) => s.topo(),
            Nested::Sub(s) => s.topo(),
        }
    }

    fn describe(&self) -> SomaData {
        match self {
            Nested::Leaf(s) => s.describe(),
            Nested::Sub(s) => s.describe(),
        }
    }
}

} // verus!

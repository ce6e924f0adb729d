//! The validating leaf wrapper. An axon binds a soma to its declared
//! connection constraints: which roles its inputs and outputs may
//! carry, and with what arity. Wiring notifications are checked
//! against the declaration as they arrive, the declared arities are
//! enforced when the network starts, and the recorded peers feed the
//! topology description.

use vstd::prelude::*;
use crate::fault::Fault;
use crate::handle::Handle;
use crate::probe::{
    ConstraintData, ConstraintView, Describe, SomaData, TopoView, constraint_view,
    constraint_views,
};
use crate::soma::{Action, Impulse, Role, Soma};

verus! {

/// A declared constraint on one connection point.
#[derive(Clone, Copy, Debug)]
pub enum Constraint<Y> {
    /// Exactly one peer with this role must be connected.
    One(Y),
    /// Any number of peers with this role may be connected.
    Variadic(Y),
}

impl<Y> Constraint<Y> {
    /// The role this constraint speaks about.
    pub open spec fn role(self) -> Y {
        match self {
            Constraint::One(role) => role,
            Constraint::Variadic(role) => role,
        }
    }
}

/// The peers recorded with a given role, in announcement order.
pub open spec fn peers_of<Y>(ps: Seq<(Y, Handle)>, role: Y) -> Seq<Handle>
    decreases ps.len(),
{
    if ps.len() == 0 {
        Seq::<Handle>::empty()
    } else if ps.last().0 == role {
        peers_of(ps.drop_last(), role).push(ps.last().1)
    } else {
        peers_of(ps.drop_last(), role)
    }
}

/// Whether some declared constraint speaks about `role`.
pub open spec fn role_declared<Y>(cs: Seq<Constraint<Y>>, role: Y) -> bool {
    exists|k: int| 0 <= k < cs.len() && (#[trigger] cs[k]).role() == role
}

/// Whether the recorded peers satisfy every declared constraint: each
/// `One` role is connected to exactly one peer.
pub open spec fn constraints_met<Y>(cs: Seq<Constraint<Y>>, ps: Seq<(Y, Handle)>) -> bool {
    forall|k: int|
        0 <= k < cs.len() ==> (match #[trigger] cs[k] {
            Constraint::One(role) => peers_of(ps, role).len() == 1,
            Constraint::Variadic(_) => true,
        })
}

/// Collect the peers recorded with the given role, in order.
fn peers_for<Y: Role>(ps: &Vec<(Y, Handle)>, role: &Y) -> (r: Vec<Handle>)
    ensures
        r@ == peers_of(ps@, *role),
{
    let mut out: Vec<Handle> = Vec::new();
    let mut i: usize = 0;
    while i < ps.len()
        invariant
            i <= ps.len(),
            out@ == peers_of(ps@.take(i as int), *role),
        decreases ps.len() - i,
    {
        if ps[i].0.role_eq(role) {
            out.push(ps[i].1);
        }
        proof {
            assert(ps@.take(i + 1).drop_last() =~= ps@.take(i as int));
            assert(ps@.take(i + 1).last() == ps@[i as int]);
        }
        i += 1;
    }
    proof {
        assert(ps@.take(ps@.len() as int) =~= ps@);
    }
    out
}

/// Decide whether some declared constraint speaks about `role`.
fn is_declared<Y: Role>(cs: &Vec<Constraint<Y>>, role: &Y) -> (r: bool)
    ensures
        r <==> role_declared(cs@, *role),
{
    let mut i: usize = 0;
    while i < cs.len()
        invariant
            i <= cs.len(),
            forall|k: int| 0 <= k < i ==> (#[trigger] cs@[k]).role() != *role,
        decreases cs.len() - i,
    {
        let matched = match &cs[i] {
            Constraint::One(r) => r.role_eq(role),
            Constraint::Variadic(r) => r.role_eq(role),
        };
        if matched {
            return true;
        }
        i += 1;
    }
    false
}

/// Decide whether the recorded peers satisfy every declared
/// constraint.
fn check_constraints<Y: Role>(cs: &Vec<Constraint<Y>>, ps: &Vec<(Y, Handle)>) -> (r: bool)
    ensures
        r <==> constraints_met(cs@, ps@),
{
    let mut i: usize = 0;
    while i < cs.len()
        invariant
            i <= cs.len(),
            forall|k: int| 0 <= k < i ==> (match #[trigger] cs@[k] {
                Constraint::One(role) => peers_of(ps@, role).len() == 1,
                Constraint::Variadic(_) => true,
            }),
        decreases cs.len() - i,
    {
        match &cs[i] {
            Constraint::One(role) => {
                let peers = peers_for(ps, role);
                if peers.len() != 1 {
                    return false;
                }
            },
            Constraint::Variadic(_) => {},
        }
        i += 1;
    }
    true
}

/// A soma bound to its declared connection constraints. The axon
/// validates every wiring notification against the declaration,
/// enforces the declared arities when the network starts, and
/// otherwise passes every event through to the wrapped soma.
pub struct Axon<T: Soma> {
    soma: T,
    dendrites: Vec<Constraint<T::Synapse>>,
    terminals: Vec<Constraint<T::Synapse>>,
    input_peers: Vec<(T::Synapse, Handle)>,
    output_peers: Vec<(T::Synapse, Handle)>,
    handle: Option<Handle>,
    name: String,
}

impl<T: Soma> Axon<T> {
    /// The wrapped soma.
    pub closed spec fn soma_spec(&self) -> T {
        self.soma
    }

    /// The declared input constraints.
    pub closed spec fn dendrites_view(&self) -> Seq<Constraint<T::Synapse>> {
        self.dendrites@
    }

    /// The declared output constraints.
    pub closed spec fn terminals_view(&self) -> Seq<Constraint<T::Synapse>> {
        self.terminals@
    }

    /// The recorded input peers with their roles, oldest first.
    pub closed spec fn input_peers_view(&self) -> Seq<(T::Synapse, Handle)> {
        self.input_peers@
    }

    /// The recorded output peers with their roles, oldest first.
    pub closed spec fn output_peers_view(&self) -> Seq<(T::Synapse, Handle)> {
        self.output_peers@
    }

    /// The handle this axon learned at `Init`, if any.
    pub closed spec fn handle_spec(&self) -> Option<Handle> {
        self.handle
    }

    /// The axon's human-readable name.
    pub closed spec fn name_spec(&self) -> String {
        self.name
    }

    /// Wrap a soma with its declared input and output constraints.
    pub fn new(soma: T, dendrites: Vec<Constraint<T::Synapse>>, terminals: Vec<
        Constraint<T::Synapse>,
    >) -> (a: Axon<T>)
        requires
            soma.inv(),
        ensures
            a.inv(),
            a.soma_spec() == soma,
            a.dendrites_view() == dendrites@,
            a.terminals_view() == terminals@,
            a.input_peers_view() == Seq::<(T::Synapse, Handle)>::empty(),
            a.output_peers_view() == Seq::<(T::Synapse, Handle)>::empty(),
            a.handle_spec() is None,
            a.name_spec()@ == "axon"@,
    {
        Axon {
            soma,
            dendrites,
            terminals,
            input_peers: Vec::new(),
            output_peers: Vec::new(),
            handle: None,
            name: String::from_str("axon"),
        }
    }

    /// The same axon under a chosen name.
    pub fn with_name(self, name: String) -> (a: Axon<T>)
        ensures
            a.name_spec() == name,
            a.soma_spec() == self.soma_spec(),
            a.dendrites_view() == self.dendrites_view(),
            a.terminals_view() == self.terminals_view(),
            a.input_peers_view() == self.input_peers_view(),
            a.output_peers_view() == self.output_peers_view(),
            a.handle_spec() == self.handle_spec(),
            a.inv() == self.inv(),
    {
        Axon { name, ..self }
    }
}

impl<T: Soma> Soma for Axon<T> {
    type Signal = T::Signal;
    type Synapse = T::Synapse;

    open spec fn inv(&self) -> bool {
        self.soma_spec().inv()
    }

    open spec fn stopped(&self) -> bool {
        self.soma_spec().stopped()
    }

    fn update(self, imp: Impulse<T::Signal, T::Synapse>) -> (r: Result<
        (Self, Vec<Action<T::Signal>>),
        Fault,
    >)
        ensures
            (match r {
                Ok(st) => {
                    &&& st.0.dendrites_view() == self.dendrites_view()
                    &&& st.0.terminals_view() == self.terminals_view()
                    &&& st.0.name_spec() == self.name_spec()
                    &&& (match imp {
                        Impulse::Init(fx) => st.0.handle_spec() == Some(fx.owner())
                            && st.0.input_peers_view() == self.input_peers_view()
                            && st.0.output_peers_view() == self.output_peers_view(),
                        Impulse::AddInput(h, role) => role_declared(self.dendrites_view(), role)
                            && st.0.input_peers_view() == self.input_peers_view().push((role, h))
                            && st.0.output_peers_view() == self.output_peers_view()
                            && st.0.handle_spec() == self.handle_spec(),
                        Impulse::AddOutput(h, role) => role_declared(self.terminals_view(), role)
                            && st.0.output_peers_view() == self.output_peers_view().push(
                            (role, h),
                        ) && st.0.input_peers_view() == self.input_peers_view()
                            && st.0.handle_spec() == self.handle_spec(),
                        Impulse::Start => constraints_met(
                            self.dendrites_view(),
                            self.input_peers_view(),
                        ) && constraints_met(self.terminals_view(), self.output_peers_view())
                            && st.0.input_peers_view() == self.input_peers_view()
                            && st.0.output_peers_view() == self.output_peers_view()
                            && st.0.handle_spec() == self.handle_spec(),
                        _ => st.0.input_peers_view() == self.input_peers_view()
                            && st.0.output_peers_view() == self.output_peers_view()
                            && st.0.handle_spec() == self.handle_spec(),
                    })
                    &&& (exists|s2: T, acts: Vec<Action<T::Signal>>|
                        {
                            &&& #[trigger] call_ensures(
                                T::update,
                                (self.soma_spec(), imp),
                                Ok((s2, acts)),
                            )
                            &&& st.0.soma_spec() == s2
                            &&& st.1@ == acts@
                        })
                },
                Err(f) => {
                    ||| (exists|g: Fault| #[trigger] call_ensures(
                        T::update,
                        (self.soma_spec(), imp),
                        Err(g),
                    ) && f == g)
                    ||| (imp matches Impulse::AddInput(_, role) && !role_declared(
                        self.dendrites_view(),
                        role,
                    ))
                    ||| (imp matches Impulse::AddOutput(_, role) && !role_declared(
                        self.terminals_view(),
                        role,
                    ))
                    ||| (imp is Start && !(constraints_met(
                        self.dendrites_view(),
                        self.input_peers_view(),
                    ) && constraints_met(self.terminals_view(), self.output_peers_view())))
                },
            }),
    {
        let Axon { soma, dendrites, terminals, input_peers, output_peers, handle, name } = self;
        let mut input_peers = input_peers;
        let mut output_peers = output_peers;
        let mut handle = handle;
        match &imp {
            Impulse::Init(fx) => {
                handle = Some(fx.this_soma());
            },
            Impulse::AddInput(h, role) => {
                if !is_declared(&dendrites, role) {
                    return Err(Fault::Custom(String::from_str("unexpected input role")));
                }
                input_peers.push((*role, *h));
            },
            Impulse::AddOutput(h, role) => {
                if !is_declared(&terminals, role) {
                    return Err(Fault::Custom(String::from_str("unexpected output role")));
                }
                output_peers.push((*role, *h));
            },
            Impulse::Start => {
                if !check_constraints(&dendrites, &input_peers) {
                    return Err(Fault::Custom(String::from_str("unsatisfied input constraint")));
                }
                if !check_constraints(&terminals, &output_peers) {
                    return Err(Fault::Custom(String::from_str("unsatisfied output constraint")));
                }
            },
            _ => {},
        }
        match soma.update(imp) {
            Ok((soma, acts)) => Ok((
                Axon { soma, dendrites, terminals, input_peers, output_peers, handle, name },
                acts,
            )),
            Err(e) => Err(e),
        }
    }
}

/// The description of one declared constraint, given the recorded
/// peers: a `One` constraint names its single peer (or a null handle
/// while unconnected), a `Variadic` constraint lists all its peers.
pub open spec fn cons_view_of<Y: Role>(c: Constraint<Y>, ps: Seq<(Y, Handle)>) -> ConstraintView {
    match c {
        Constraint::One(role) => ConstraintView::One {
            variant: role.spec_label(),
            soma: (if peers_of(ps, role).len() > 0 {
                peers_of(ps, role)[0]
            } else {
                Handle::spec_from_bits(0)
            }),
        },
        Constraint::Variadic(role) => ConstraintView::Variadic {
            variant: role.spec_label(),
            somas: peers_of(ps, role),
        },
    }
}

/// The descriptions of a whole row of declared constraints.
pub open spec fn cons_views_of<Y: Role>(cs: Seq<Constraint<Y>>, ps: Seq<(Y, Handle)>) -> Seq<
    ConstraintView,
> {
    cs.map_values(|c: Constraint<Y>| cons_view_of(c, ps))
}

/// Describe a row of declared constraints against the recorded peers.
fn describe_row<Y: Role>(cs: &Vec<Constraint<Y>>, ps: &Vec<(Y, Handle)>) -> (r: Vec<
    ConstraintData,
>)
    ensures
        constraint_views(r@) == cons_views_of(cs@, ps@),
{
    let mut out: Vec<ConstraintData> = Vec::new();
    let mut i: usize = 0;
    while i < cs.len()
        invariant
            i <= cs.len(),
            out@.len() == i,
            forall|k: int| 0 <= k < i ==> constraint_view(#[trigger] out@[k]) == cons_view_of(
                cs@[k],
                ps@,
            ),
        decreases cs.len() - i,
    {
        match &cs[i] {
            Constraint::One(role) => {
                let peers = peers_for(ps, role);
                let soma = if peers.len() > 0 {
                    peers[0]
                } else {
                    Handle::from_bits(0)
                };
                out.push(ConstraintData::One { variant: role.role_label(), soma });
            },
            Constraint::Variadic(role) => {
                let somas = peers_for(ps, role);
                out.push(ConstraintData::Variadic { variant: role.role_label(), somas });
            },
        }
        i += 1;
    }
    proof {
        assert(constraint_views(out@) =~= cons_views_of(cs@, ps@));
    }
    out
}

impl<T: Soma> Describe for Axon<T> {
    open spec fn topo(&self) -> TopoView {
        TopoView::Axon {
            terminals: cons_views_of(self.terminals_view(), self.output_peers_view()),
            dendrites: cons_views_of(self.dendrites_view(), self.input_peers_view()),
            uuid: (match self.handle_spec() {
                Some(h) => h,
                None => Handle::spec_from_bits(0),
            }),
            name: self.name_spec()@,
        }
    }

    fn describe(&self) -> SomaData {
        let terminals = describe_row(&self.terminals, &self.output_peers);
        let dendrites = describe_row(&self.dendrites, &self.input_peers);
        let uuid = match self.handle {
            Some(h) => h,
            None => Handle::from_bits(0),
        };
        SomaData::Axon { terminals, dendrites, uuid, name: self.name.clone() }
    }
}

} // verus!

//! The topology-description contract: the answer to a "describe this
//! network" query. Each node of a network is described either as a
//! composite — its nucleus, its other children and its name — or as a
//! leaf with its declared connection constraints. This recursive
//! description is the one external data contract the substrate keeps
//! in lockstep with its own topology representation.

use vstd::prelude::*;
use crate::handle::Handle;
use crate::organelle::{seq_knows, NodeEntry, Organelle};
use crate::soma::Soma;

verus! {

/// The kind of a single connection point, as a plain label.
#[derive(Debug, PartialEq, Eq)]
pub struct SynapseData(pub String);

/// One declared connection constraint of a leaf, with the peers that
/// were actually connected to it.
#[derive(Debug, PartialEq, Eq)]
pub enum ConstraintData {
    /// A constraint requiring exactly one peer of this variant.
    One {
        /// The connection role's label.
        variant: String,
        /// The connected peer.
        soma: Handle,
    },
    /// A constraint admitting any number of peers of this variant.
    Variadic {
        /// The connection role's label.
        variant: String,
        /// The connected peers, in announcement order.
        somas: Vec<Handle>,
    },
}

/// The recursive description of one network node.
#[derive(Debug, PartialEq, Eq)]
pub enum SomaData {
    /// A composite: a whole nested network.
    Organelle {
        /// The description of the composite's main child.
        nucleus: Box<SomaData>,
        /// The descriptions of the other children, in registry order.
        somas: Vec<SomaData>,
        /// The composite's own handle.
        uuid: Handle,
        /// A human-readable name.
        name: String,
    },
    /// A leaf with declared connection constraints.
    Axon {
        /// The declared output constraints, with connected peers.
        terminals: Vec<ConstraintData>,
        /// The declared input constraints, with connected peers.
        dendrites: Vec<ConstraintData>,
        /// The leaf's handle.
        uuid: Handle,
        /// A human-readable name.
        name: String,
    },
    /// A bare leaf that declares nothing about its connections.
    Soma {
        /// The kind of connection the leaf takes part in.
        synapse: SynapseData,
        /// A human-readable name.
        name: String,
    },
}

/// The mathematical shape of one declared constraint in a
/// description.
pub enum ConstraintView {
    /// Exactly one peer.
    One {
        /// The connection role's label.
        variant: Seq<char>,
        /// The connected peer.
        soma: Handle,
    },
    /// Any number of peers.
    Variadic {
        /// The connection role's label.
        variant: Seq<char>,
        /// The connected peers, in announcement order.
        somas: Seq<Handle>,
    },
}

/// The mathematical shape of a topology description.
pub enum TopoView {
    /// A composite.
    Organelle {
        /// The main child's description.
        nucleus: Box<TopoView>,
        /// The other children's descriptions, in registry order.
        somas: Seq<TopoView>,
        /// The composite's handle.
        uuid: Handle,
        /// The composite's name.
        name: Seq<char>,
    },
    /// A leaf with declared constraints.
    Axon {
        /// The declared output constraints.
        terminals: Seq<ConstraintView>,
        /// The declared input constraints.
        dendrites: Seq<ConstraintView>,
        /// The leaf's handle.
        uuid: Handle,
        /// The leaf's name.
        name: Seq<char>,
    },
    /// A bare leaf.
    Soma {
        /// The connection kind's label.
        synapse: Seq<char>,
        /// The leaf's name.
        name: Seq<char>,
    },
}

/// The mathematical shape of a constraint description.
pub open spec fn constraint_view(c: ConstraintData) -> ConstraintView {
    match c {
        ConstraintData::One { variant, soma } => ConstraintView::One { variant: variant@, soma },
        ConstraintData::Variadic { variant, somas } => ConstraintView::Variadic {
            variant: variant@,
            somas: somas@,
        },
    }
}

/// The mathematical shapes of a sequence of constraint descriptions.
pub open spec fn constraint_views(cs: Seq<ConstraintData>) -> Seq<ConstraintView> {
    cs.map_values(|c: ConstraintData| constraint_view(c))
}

/// The mathematical shape of a description.
pub open spec fn topo_view(d: SomaData) -> TopoView
    decreases d,
{
    match d {
        SomaData::Organelle { nucleus, somas, uuid, name } => TopoView::Organelle {
            nucleus: Box::new(topo_view(*nucleus)),
            somas: topo_views(somas@),
            uuid,
            name: name@,
        },
        SomaData::Axon { terminals, dendrites, uuid, name } => TopoView::Axon {
            terminals: constraint_views(terminals@),
            dendrites: constraint_views(dendrites@),
            uuid,
            name: name@,
        },
        SomaData::Soma { synapse, name } => TopoView::Soma { synapse: synapse.0@, name: name@ },
    }
}

/// The mathematical shapes of a sequence of descriptions.
pub open spec fn topo_views(ds: Seq<SomaData>) -> Seq<TopoView>
    decreases ds,
{
    if ds.len() == 0 {
        Seq::<TopoView>::empty()
    } else {
        topo_views(ds.drop_last()).push(topo_view(ds.last()))
    }
}

impl View for SomaData {
    type V = TopoView;

    open spec fn view(&self) -> TopoView {
        topo_view(*self)
    }
}

/// A component that can answer the "describe topology" query.
pub trait Describe {
    /// The description's shape, mathematically: what `describe` must
    /// return.
    spec fn topo(&self) -> TopoView;

    /// Answer the query: produce the description of this component
    /// and, recursively, of everything it hosts.
    fn describe(&self) -> (d: SomaData)
        ensures
            d@ == self.topo(),
    ;
}

/// The description of one registry slot: the held soma's own
/// description, or a bare placeholder for a slot whose soma failed and
/// was dropped.
pub open spec fn entry_topo<C: Soma + Describe>(e: NodeEntry<C>) -> TopoView {
    match e.soma_spec() {
        Some(s) => s.topo(),
        None => TopoView::Soma { synapse: Seq::<char>::empty(), name: Seq::<char>::empty() },
    }
}

/// The description of the first slot named `h`, or a bare placeholder
/// if no slot is.
pub open spec fn topo_of_handle<C: Soma + Describe>(es: Seq<NodeEntry<C>>, h: Handle) -> TopoView
    decreases es.len(),
{
    if es.len() == 0 {
        TopoView::Soma { synapse: Seq::<char>::empty(), name: Seq::<char>::empty() }
    } else if !seq_knows(es.drop_last(), h) && es.last().handle_spec() == h {
        entry_topo(es.last())
    } else {
        topo_of_handle(es.drop_last(), h)
    }
}

/// The descriptions of every slot not named `skip`, in registry
/// order.
pub open spec fn topos_except<C: Soma + Describe>(es: Seq<NodeEntry<C>>, skip: Handle) -> Seq<
    TopoView,
>
    decreases es.len(),
{
    if es.len() == 0 {
        Seq::<TopoView>::empty()
    } else if es.last().handle_spec() == skip {
        topos_except(es.drop_last(), skip)
    } else {
        topos_except(es.drop_last(), skip).push(entry_topo(es.last()))
    }
}

/// Where no slot is named `h`, the description of `h` is the bare
/// placeholder.
proof fn lemma_topo_of_unknown<C: Soma + Describe>(es: Seq<NodeEntry<C>>, h: Handle)
    requires
        !seq_knows(es, h),
    ensures
        topo_of_handle(es, h) == (TopoView::Soma {
            synapse: Seq::<char>::empty(),
            name: Seq::<char>::empty(),
        }),
    decreases es.len(),
{
    if es.len() > 0 {
        assert(es.last().handle_spec() != h) by {
            if es.last().handle_spec() == h {
                assert(es[es.len() - 1].handle_spec() == h);
            }
        }
        assert(!seq_knows(es.drop_last(), h)) by {
            if seq_knows(es.drop_last(), h) {
                let i = choose|i: int|
                    0 <= i < es.drop_last().len() && (#[trigger] es.drop_last()[i]).handle_spec()
                        == h;
                assert(es[i].handle_spec() == h);
            }
        }
        lemma_topo_of_unknown(es.drop_last(), h);
    }
}

impl<T: Soma + Describe, OS, OY: crate::soma::Role> Describe for crate::soma::SomaWrapper<
    T,
    OS,
    OY,
> where T::Signal: crate::soma::Convert<OS>, T::Synapse: crate::soma::Convert<OY> {
    open spec fn topo(&self) -> TopoView {
        match self.inner() {
            Some(s) => s.topo(),
            None => TopoView::Soma { synapse: Seq::<char>::empty(), name: Seq::<char>::empty() },
        }
    }

    fn describe(&self) -> SomaData {
        match self.inner_ref() {
            Some(s) => s.describe(),
            None => SomaData::Soma { synapse: SynapseData(String::new()), name: String::new() },
        }
    }
}

impl<C: Soma + Describe> Describe for Organelle<C> {
    open spec fn topo(&self) -> TopoView {
        TopoView::Organelle {
            nucleus: Box::new(topo_of_handle(self.entries_view(), self.nucleus_spec())),
            somas: topos_except(self.entries_view(), self.nucleus_spec()),
            uuid: self.my_handle(),
            name: self.name_spec()@,
        }
    }

    fn describe(&self) -> SomaData {
        let n = self.soma_count();
        let nucleus_h = self.nucleus();
        let mut nucleus_desc: Option<SomaData> = None;
        let mut others: Vec<SomaData> = Vec::new();
        let mut i: usize = 0;
        while i < n
            invariant
                n == self.entry_count(),
                i <= n,
                nucleus_h == self.nucleus_spec(),
                topo_views(others@) == topos_except(
                    self.entries_view().take(i as int),
                    nucleus_h,
                ),
                (match nucleus_desc {
                    None => !seq_knows(self.entries_view().take(i as int), nucleus_h),
                    Some(d) => seq_knows(self.entries_view().take(i as int), nucleus_h)
                        && topo_view(d) == topo_of_handle(
                        self.entries_view().take(i as int),
                        nucleus_h,
                    ),
                }),
            decreases n - i,
        {
            let ghost es = self.entries_view();
            let h = self.handle_at(i);
            let desc = match self.soma_ref_at(i) {
                Some(s) => s.describe(),
                None => SomaData::Soma { synapse: SynapseData(String::new()), name: String::new() },
            };
            proof {
                assert(topo_view(desc) == entry_topo(es[i as int]));
                assert(es.take(i + 1).drop_last() =~= es.take(i as int));
                assert(es.take(i + 1).last() == es[i as int]);
                assert(es.take(i + 1)[i as int] == es[i as int]);
            }
            if h == nucleus_h {
                if nucleus_desc.is_none() {
                    nucleus_desc = Some(desc);
                }
                proof {
                    assert(seq_knows(es.take(i + 1), nucleus_h)) by {
                        assert(es.take(i + 1)[i as int].handle_spec() == nucleus_h);
                    }
                    assert(topos_except(es.take(i + 1), nucleus_h) == topos_except(
                        es.take(i as int),
                        nucleus_h,
                    ));
                }
            } else {
                let ghost prev = others@;
                others.push(desc);
                proof {
                    assert(others@.drop_last() =~= prev);
                    assert(others@.last() == desc);
                    assert(topo_views(others@) == topo_views(prev).push(topo_view(desc)));
                    assert(topos_except(es.take(i + 1), nucleus_h) == topos_except(
                        es.take(i as int),
                        nucleus_h,
                    ).push(entry_topo(es[i as int])));
                    (match nucleus_desc {
                        None => {
                            assert(!seq_knows(es.take(i + 1), nucleus_h)) by {
                                if seq_knows(es.take(i + 1), nucleus_h) {
                                    let k = choose|k: int|
                                        0 <= k < es.take(i + 1).len() && (#[trigger] es.take(
                                            i + 1,
                                        )[k]).handle_spec() == nucleus_h;
                                    if k < i {
                                        assert(es.take(i as int)[k].handle_spec() == nucleus_h);
                                    }
                                }
                            }
                        },
                        Some(_) => {
                            assert(seq_knows(es.take(i + 1), nucleus_h)) by {
                                let k = choose|k: int|
                                    0 <= k < es.take(i as int).len() && (#[trigger] es.take(
                                        i as int,
                                    )[k]).handle_spec() == nucleus_h;
                                assert(es.take(i + 1)[k].handle_spec() == nucleus_h);
                            }
                        },
                    });
                }
            }
            i += 1;
        }
        proof {
            assert(self.entries_view().take(n as int) =~= self.entries_view());
        }
        let nucleus_data = match nucleus_desc {
            Some(d) => d,
            None => {
                proof {
                    lemma_topo_of_unknown(self.entries_view(), nucleus_h);
                }
                SomaData::Soma { synapse: SynapseData(String::new()), name: String::new() }
            },
        };
        proof {
            assert(topo_views(others@) == topos_except(self.entries_view(), nucleus_h));
            assert(topo_view(nucleus_data) == topo_of_handle(self.entries_view(), nucleus_h));
        }
        SomaData::Organelle {
            nucleus: Box::new(nucleus_data),
            somas: others,
            uuid: self.identity(),
            name: self.name_string(),
        }
    }
}

} // verus!

//! Organelle - a reactive substrate for composing independent components
//! ("somas") into a message-passing network driven by a single uniform
//! control protocol, with support for nesting whole networks behind the
//! same component interface.

pub mod axon;
pub mod channel;
pub mod fault;
pub mod handle;
pub mod organelle;
pub mod probe;
pub mod protocol;
pub mod samples;
pub mod soma;
pub mod visualizer;

pub use axon::{Axon, Constraint};
pub use fault::Fault;
pub use handle::Handle;
pub use organelle::{Organelle, RunOutcome};
pub use probe::{ConstraintData, Describe, SomaData, SynapseData};
pub use soma::{Action, Convert, Effector, Impulse, Role, Soma, SomaWrapper, Synapse};

//! Failures that terminate a network run.

use vstd::prelude::*;
use crate::handle::Handle;

verus! {

/// Why a network run aborted. Any unrecovered fault terminates the
/// whole network: partial shutdowns are not supported.
#[derive(Debug)]
pub enum Fault {
    /// A component's transition reported a failure; the inner fault is
    /// the cause, and each nesting level wraps it once on the way up.
    Soma(Box<Fault>),
    /// A domain-specific failure raised by a component itself.
    Custom(String),
    /// A connect request or a top-level route named a handle that no
    /// registry owns.
    UnknownHandle(Handle),
}

impl Fault {
    /// How many `Soma` wrappers enclose the root cause: the number of
    /// nesting levels a component failure has escalated through.
    pub open spec fn depth(&self) -> nat
        decreases self,
    {
        match self {
            Fault::Soma(inner) => 1 + inner.depth(),
            _ => 0,
        }
    }

    /// Escalate a failure one level: wrap it as a component failure.
    pub fn chain(self) -> (r: Fault)
        ensures
            r == Fault::Soma(Box::new(self)),
            r.depth() == self.depth() + 1,
    {
        Fault::Soma(Box::new(self))
    }

    /// A copy of this failure: the same cause chain, value for value.
    pub fn duplicate(&self) -> (r: Fault)
        ensures
            r == self,
        decreases self,
    {
        match self {
            Fault::Soma(inner) => Fault::Soma(Box::new((**inner).duplicate())),
            Fault::Custom(s) => Fault::Custom(s.clone()),
            Fault::UnknownHandle(h) => Fault::UnknownHandle(*h),
        }
    }

    /// A short description of the failure, for reporting at the edge
    /// of a run.
    pub fn describe(&self) -> (r: String)
        ensures
            (match self {
                Fault::Soma(_) => r@ == "an error occurred while calling into a soma"@,
                Fault::Custom(s) => r@ == s@,
                Fault::UnknownHandle(_) => r@ == "unable to find soma for handle"@,
            }),
    {
        match self {
            Fault::Soma(_) => String::from_str("an error occurred while calling into a soma"),
            Fault::Custom(s) => s.clone(),
            Fault::UnknownHandle(_) => String::from_str("unable to find soma for handle"),
        }
    }
}

impl Clone for Fault {
    /// A clone carries the same cause chain.
    fn clone(&self) -> (r: Fault)
        ensures
            r == self,
    {
        self.duplicate()
    }
}

} // verus!

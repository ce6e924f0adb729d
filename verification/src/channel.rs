//! Bounded delivery channels.
//!
//! Every registry owns one relay channel. A send never blocks the
//! sender: when the bounded ready buffer is full, the message is
//! parked — the model of a suspended delivery task — and moves into
//! the ready buffer, in its original position, as soon as receiving
//! makes room. Nothing is ever lost or reordered: the logical contents
//! of the channel are always the sends in order, and receiving always
//! yields the oldest.

use vstd::prelude::*;

verus! {

/// A bounded FIFO channel. `ready` holds at most `capacity` messages
/// that can be delivered now; `parked` holds sends suspended while the
/// ready buffer is full.
pub struct Channel<T> {
    capacity: usize,
    ready: Vec<T>,
    parked: Vec<T>,
}

impl<T> Channel<T> {
    /// The bound on the ready buffer.
    pub closed spec fn cap(&self) -> nat {
        self.capacity as nat
    }

    /// The messages deliverable now, oldest first.
    pub closed spec fn ready_view(&self) -> Seq<T> {
        self.ready@
    }

    /// The suspended sends, oldest first.
    pub closed spec fn parked_view(&self) -> Seq<T> {
        self.parked@
    }

    /// The logical contents: every accepted send in order, whether
    /// deliverable or suspended.
    pub open spec fn view(&self) -> Seq<T> {
        self.ready_view() + self.parked_view()
    }

    /// Well-formedness: the ready buffer respects the bound, and sends
    /// are parked only while the ready buffer is full.
    pub open spec fn wf(&self) -> bool {
        &&& self.cap() >= 1
        &&& self.ready_view().len() <= self.cap()
        &&& (self.parked_view().len() > 0 ==> self.ready_view().len() == self.cap())
    }

    /// A fresh empty channel with the given bound.
    pub fn new(capacity: usize) -> (c: Channel<T>)
        requires
            capacity >= 1,
        ensures
            c.wf(),
            c.cap() == capacity,
            c.view() == Seq::<T>::empty(),
    {
        let c = Channel { capacity, ready: Vec::new(), parked: Vec::new() };
        proof {
            assert(c.view() =~= Seq::<T>::empty());
        }
        c
    }

    /// Accept a send. The message is appended to the logical contents;
    /// it lands in the ready buffer if there is room and is parked —
    /// the sender's delivery task suspends — otherwise.
    pub fn send(&mut self, t: T)
        requires
            old(self).wf(),
        ensures
            final(self).wf(),
            final(self).cap() == old(self).cap(),
            final(self).view() == old(self).view().push(t),
            old(self).ready_view().len() < old(self).cap() ==> final(self).ready_view()
                == old(self).ready_view().push(t),
            old(self).ready_view().len() == old(self).cap() ==> final(self).parked_view()
                == old(self).parked_view().push(t),
    {
        if self.ready.len() < self.capacity {
            self.ready.push(t);
            proof {
                assert(self.view() =~= old(self).view().push(t));
            }
        } else {
            self.parked.push(t);
            proof {
                assert(self.view() =~= old(self).view().push(t));
            }
        }
    }

    /// Deliver the oldest message, if any. Receiving makes room: the
    /// oldest parked send, if any, resumes into the ready buffer, so
    /// draining the channel yields every send in its original order.
    pub fn recv(&mut self) -> (r: Option<T>)
        requires
            old(self).wf(),
        ensures
            final(self).wf(),
            final(self).cap() == old(self).cap(),
            (match r {
                Some(t) => old(self).view().len() > 0 && t == old(self).view()[0]
                    && final(self).view() == old(self).view().drop_first(),
                None => old(self).view().len() == 0 && final(self).view() == old(self).view(),
            }),
    {
        if self.ready.len() == 0 {
            None
        } else {
            let t = self.ready.remove(0);
            if self.parked.len() > 0 {
                let resumed = self.parked.remove(0);
                self.ready.push(resumed);
            }
            proof {
                assert(self.view() =~= old(self).view().drop_first());
            }
            Some(t)
        }
    }

    /// Whether the logical contents are empty.
    pub fn is_empty(&self) -> (r: bool)
        ensures
            r <==> self.view().len() == 0,
    {
        self.ready.len() == 0 && self.parked.len() == 0
    }
}

/// While the contents fit within the bound, no send is suspended: a
/// well-formed channel parks deliveries only under backpressure.
pub proof fn lemma_parks_only_when_full<T>(c: Channel<T>)
    requires
        c.wf(),
    ensures
        c.view().len() <= c.cap() ==> c.parked_view().len() == 0,
        c.parked_view().len() > 0 ==> c.view().len() > c.cap(),
{
}

} // verus!
